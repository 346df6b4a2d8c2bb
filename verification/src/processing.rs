use vstd::arithmetic::mul::lemma_mul_upper_bound;
use vstd::prelude::*;

use crate::bitmap::Bitmap;
use crate::bitmap::BitmapView;
use crate::bitmap::blank_px;
use crate::bitmap::byte_in_rect;
use crate::bitmap::encode_png;
use crate::bitmap::gaussian_blur_px;
use crate::bitmap::gaussian_blur_rgb;
use crate::bitmap::new_canvas;
use crate::bitmap::overlay_onto;
use crate::bitmap::overlay_px;
use crate::bitmap::png_px;
use crate::bitmap::resize_bitmap;
use crate::bitmap::resize_px;

verus! {

/// Every way a composite request can fail.
#[derive(Clone, Copy, Debug, PartialEq, Eq, Structural)]
pub enum ProcessingError {
    /// The caller handed in no bitmaps at all.
    EmptyInput,
    /// The caller handed in more than four bitmaps.
    TooManyTiles,
    /// The canvas sizer was asked about a tile count it has no plan for.
    UnsupportedCount,
    /// The reference selector was asked to pick from an empty set.
    NoReferenceFound,
    /// Reference selection failed inside the compositor; unreachable after
    /// the emptiness check, kept as a defensive mapping.
    ReferenceSelectionFailed,
    /// The backdrop's byte buffer did not match its dimensions.
    BlurGeometryError,
    /// The final raster could not be serialized.
    EncodingError,
}

/// The views of a list of bitmaps.
pub open spec fn views_of(s: Seq<Bitmap>) -> Seq<BitmapView> {
    s.map_values(|b: Bitmap| b@)
}

/// Canvas width for a tile count: the reference width, doubled from two
/// tiles on.
pub open spec fn canvas_width(count: int, ref_width: int) -> int {
    if count == 1 {
        ref_width
    } else {
        2 * ref_width
    }
}

/// Canvas height for a tile count: the reference height, doubled from three
/// tiles on.
pub open spec fn canvas_height(count: int, ref_height: int) -> int {
    if count <= 2 {
        ref_height
    } else {
        2 * ref_height
    }
}

/// Width of the largest aspect-preserving resize of a `w` x `h` bitmap that
/// fits inside a `tw` x `th` box (divisions truncate).
pub open spec fn fit_width(w: int, h: int, tw: int, th: int) -> int {
    if w * th > tw * h {
        tw
    } else {
        th * w / h
    }
}

/// Height of the largest aspect-preserving resize of a `w` x `h` bitmap that
/// fits inside a `tw` x `th` box (divisions truncate).
pub open spec fn fit_height(w: int, h: int, tw: int, th: int) -> int {
    if w * th > tw * h {
        tw * h / w
    } else {
        th
    }
}

/// Pad-mode scaling never crops: the aspect-preserving resize always fits
/// inside the target box.
pub proof fn lemma_fit_within_box(w: int, h: int, tw: int, th: int)
    requires
        w >= 1,
        h >= 1,
        tw >= 0,
        th >= 0,
    ensures
        0 <= fit_width(w, h, tw, th) <= tw,
        0 <= fit_height(w, h, tw, th) <= th,
{
    if w * th > tw * h {
        assert(0 <= tw * h / w < th) by (nonlinear_arith)
            requires
                w >= 1,
                h >= 1,
                th >= 0,
                tw >= 0,
                w * th > tw * h,
        ;
    } else {
        assert(0 <= th * w / h <= tw) by (nonlinear_arith)
            requires
                w >= 1,
                h >= 1,
                th >= 0,
                tw >= 0,
                w * th <= tw * h,
        ;
    }
}

/// Aspect-preserving fit of a `width` x `height` bitmap into a box, as the
/// tile scaler computes it in pad mode.
pub fn fit_within(width: u32, height: u32, target_width: u32, target_height: u32) -> (r: (
    u32,
    u32,
))
    requires
        width >= 1,
        height >= 1,
    ensures
        r.0 == fit_width(width as int, height as int, target_width as int, target_height as int),
        r.1 == fit_height(width as int, height as int, target_width as int, target_height as int),
        r.0 <= target_width,
        r.1 <= target_height,
{
    proof {
        lemma_fit_within_box(width as int, height as int, target_width as int, target_height as int);
        lemma_mul_upper_bound(width as int, u32::MAX as int, target_height as int, u32::MAX as int);
        lemma_mul_upper_bound(target_width as int, u32::MAX as int, height as int, u32::MAX as int);
        lemma_mul_upper_bound(target_height as int, u32::MAX as int, width as int, u32::MAX as int);
    }
    let wth: u64 = (width as u64) * (target_height as u64);
    let twh: u64 = (target_width as u64) * (height as u64);
    if wth > twh {
        let nh: u64 = (target_width as u64) * (height as u64) / (width as u64);
        (target_width, nh as u32)
    } else {
        let nw: u64 = (target_height as u64) * (width as u64) / (height as u64);
        (nw as u32, target_height)
    }
}

/// Maps a tile count to the total canvas size, as a fixed multiple of the
/// reference dimensions; counts outside 1..=4 have no plan.
pub fn size_canvas(count: usize, ref_width: u32, ref_height: u32) -> (r: Result<
    (u32, u32),
    ProcessingError,
>)
    requires
        2 * ref_width <= u32::MAX,
        2 * ref_height <= u32::MAX,
    ensures
        (count == 0 || count > 4) <==> (r is Err),
        r is Err ==> r->Err_0 == ProcessingError::UnsupportedCount,
        r is Ok ==> (r->Ok_0).0 == canvas_width(count as int, ref_width as int) && (
        r->Ok_0).1 == canvas_height(count as int, ref_height as int),
{
    if count == 0 || count > 4 {
        Err(ProcessingError::UnsupportedCount)
    } else if count == 1 {
        Ok((ref_width, ref_height))
    } else if count == 2 {
        Ok((2 * ref_width, ref_height))
    } else {
        Ok((2 * ref_width, 2 * ref_height))
    }
}

/// The index of the reference bitmap: the last bitmap of maximal pixel area.
pub open spec fn ref_index(s: Seq<BitmapView>) -> int
    decreases s.len(),
{
    if s.len() <= 1 {
        0
    } else {
        let r = ref_index(s.drop_last());
        if s.last().area() >= s[r].area() {
            s.len() - 1
        } else {
            r
        }
    }
}

/// The reference index is in range, carries a maximal area, and is the last
/// index carrying that area.
pub proof fn lemma_ref_index_props(s: Seq<BitmapView>)
    requires
        s.len() >= 1,
    ensures
        0 <= ref_index(s) < s.len(),
        forall|j: int| 0 <= j < s.len() ==> (#[trigger] s[j].area()) <= s[ref_index(s)].area(),
        forall|j: int| ref_index(s) < j < s.len() ==> (#[trigger] s[j].area()) < s[ref_index(
            s,
        )].area(),
    decreases s.len(),
{
    if s.len() > 1 {
        lemma_ref_index_props(s.drop_last());
        assert(forall|j: int| 0 <= j < s.len() - 1 ==> s.drop_last()[j] == s[j]);
    }
}

/// Picks the bitmap whose pixel area `width * height` is greatest; among
/// equal areas the one standing last wins.
pub fn find_img_with_most_pixels(images: &Vec<Bitmap>) -> (r: Result<usize, ProcessingError>)
    ensures
        images@.len() == 0 <==> r is Err,
        r is Err ==> r->Err_0 == ProcessingError::NoReferenceFound,
        r is Ok ==> {
            let v = views_of(images@);
            let i = r->Ok_0 as int;
            &&& i == ref_index(v)
            &&& 0 <= i < v.len()
            &&& forall|j: int| 0 <= j < v.len() ==> (#[trigger] v[j].area()) <= v[i].area()
        },
{
    if images.len() == 0 {
        return Err(ProcessingError::NoReferenceFound);
    }
    let ghost v = views_of(images@);
    proof {
        lemma_mul_upper_bound(v[0].width, u32::MAX as int, v[0].height, u32::MAX as int);
    }
    let mut best: usize = 0;
    let mut best_area: u64 = (images[0].width as u64) * (images[0].height as u64);
    let mut i: usize = 1;
    while i < images.len()
        invariant
            1 <= i <= v.len(),
            v == views_of(images@),
            v.len() == images@.len(),
            best < i,
            best as int == ref_index(v.take(i as int)),
            best_area as int == v[best as int].area(),
        decreases v.len() - i,
    {
        proof {
            lemma_mul_upper_bound(v[i as int].width, u32::MAX as int, v[i as int].height, u32::MAX as int);
            assert(v.take(i + 1).drop_last() =~= v.take(i as int));
            assert(v.take(i + 1).last() == v[i as int]);
        }
        let a: u64 = (images[i].width as u64) * (images[i].height as u64);
        if a >= best_area {
            best = i;
            best_area = a;
        }
        i += 1;
    }
    proof {
        assert(v.take(v.len() as int) =~= v);
        lemma_ref_index_props(v);
    }
    Ok(best)
}

/// The total canvas size for these bitmaps: the reference dimensions under
/// the count-specific multiplier; an empty list has no reference, and more
/// than four tiles have no plan.
pub fn get_total_img_size(images: &Vec<Bitmap>) -> (r: Result<(u32, u32), ProcessingError>)
    requires
        forall|i: int| 0 <= i < images@.len() ==> 2 * (#[trigger] images@[i])@.width <= u32::MAX
            && 2 * images@[i]@.height <= u32::MAX,
    ensures
        images@.len() == 0 ==> r is Err && r->Err_0 == ProcessingError::NoReferenceFound,
        images@.len() > 4 ==> r is Err && r->Err_0 == ProcessingError::UnsupportedCount,
        1 <= images@.len() <= 4 ==> r is Ok && {
            let v = views_of(images@);
            let rv = v[ref_index(v)];
            &&& (r->Ok_0).0 == canvas_width(v.len() as int, rv.width)
            &&& (r->Ok_0).1 == canvas_height(v.len() as int, rv.height)
        },
{
    let max_index = match find_img_with_most_pixels(images) {
        Ok(i) => i,
        Err(e) => {
            return Err(e);
        },
    };
    let width = images[max_index].width;
    let height = images[max_index].height;
    size_canvas(images.len(), width, height)
}

/// A blank, fully transparent canvas at spec level.
pub open spec fn blank_canvas(w: int, h: int) -> BitmapView {
    BitmapView { bytes: blank_px(w, h), width: w, height: h }
}

/// One overlay step at spec level: `tile` laid onto `base` at `(x, y)`.
pub open spec fn place(base: BitmapView, tile: BitmapView, x: int, y: int) -> BitmapView {
    BitmapView {
        bytes: overlay_px(
            base.bytes,
            base.width,
            base.height,
            tile.bytes,
            tile.width,
            tile.height,
            x,
            y,
        ),
        width: base.width,
        height: base.height,
    }
}

/// Tiles laid left to right starting at `(x, y)`, each advancing the cursor
/// by its own width.
pub open spec fn row_place(base: BitmapView, tiles: Seq<BitmapView>, x: int, y: int) -> BitmapView
    decreases tiles.len(),
{
    if tiles.len() == 0 {
        base
    } else {
        row_place(
            place(base, tiles[0], x, y),
            tiles.subrange(1, tiles.len() as int),
            x + tiles[0].width,
            y,
        )
    }
}

/// The tile scaler at spec level. In pad mode the bitmap is resized with
/// Lanczos3 to the largest aspect-preserving fit and centered on a
/// transparent canvas of the target size; in stretch mode it is resized with
/// the Gaussian filter to the target size outright.
pub open spec fn scaled(b: BitmapView, tw: int, th: int, pad: bool) -> BitmapView {
    if pad {
        let nw = fit_width(b.width, b.height, tw, th);
        let nh = fit_height(b.width, b.height, tw, th);
        let resized = BitmapView {
            bytes: resize_px(b.bytes, b.width, b.height, nw, nh, false),
            width: nw,
            height: nh,
        };
        place(blank_canvas(tw, th), resized, (tw - nw) / 2, (th - nh) / 2)
    } else {
        BitmapView {
            bytes: resize_px(b.bytes, b.width, b.height, tw, th, true),
            width: tw,
            height: th,
        }
    }
}

/// Every bitmap of the list scaled to the same target size.
pub open spec fn scaled_all(s: Seq<BitmapView>, tw: int, th: int, pad: bool) -> Seq<BitmapView> {
    s.map_values(|b: BitmapView| scaled(b, tw, th, pad))
}

/// Resizes one bitmap to the target size: aspect-preserving and centered on
/// a transparent canvas in pad mode, a plain stretch otherwise.
pub fn scale_image_iterable(image: &Bitmap, target_width: u32, target_height: u32, pad: bool) -> (r:
    Bitmap)
    requires
        image@.width >= 1,
        image@.height >= 1,
        4 * target_width * target_height <= usize::MAX,
    ensures
        r@ == scaled(image@, target_width as int, target_height as int, pad),
        r.width == target_width,
        r.height == target_height,
        r@.wf(),
        pad ==> {
            let nw = fit_width(
                image@.width,
                image@.height,
                target_width as int,
                target_height as int,
            );
            let nh = fit_height(
                image@.width,
                image@.height,
                target_width as int,
                target_height as int,
            );
            forall|i: int|
                0 <= i < r@.bytes.len() && !byte_in_rect(
                    i,
                    target_width as int,
                    (target_width - nw) / 2,
                    (target_height - nh) / 2,
                    nw,
                    nh,
                ) ==> #[trigger] r@.bytes[i] == 0
        },
{
    if pad {
        let fit = fit_within(image.width, image.height, target_width, target_height);
        let new_width = fit.0;
        let new_height = fit.1;
        proof {
            assert(4 * (new_width as int) * (new_height as int) <= 4 * (target_width as int) * (
            target_height as int)) by (nonlinear_arith)
                requires
                    0 <= new_width as int <= target_width as int,
                    0 <= new_height as int <= target_height as int,
            ;
        }
        let resized = resize_bitmap(image, new_width, new_height, false);
        let x = (target_width - new_width) / 2;
        let y = (target_height - new_height) / 2;
        let mut new_img = new_canvas(target_width, target_height);
        overlay_onto(&mut new_img, &resized, x, y);
        proof {
            assert forall|i: int|
                0 <= i < new_img@.bytes.len() && !byte_in_rect(
                    i,
                    target_width as int,
                    x as int,
                    y as int,
                    new_width as int,
                    new_height as int,
                ) implies #[trigger] new_img@.bytes[i] == 0 by {
                assert(blank_px(target_width as int, target_height as int)[i] == 0);
            }
        }
        new_img
    } else {
        resize_bitmap(image, target_width, target_height, true)
    }
}

/// Scales every bitmap of the list to one target size under one mode.
pub fn scale_all_images_to_same_size(
    image_array: &Vec<Bitmap>,
    target_width: u32,
    target_height: u32,
    pad: bool,
) -> (r: Vec<Bitmap>)
    requires
        forall|i: int| 0 <= i < image_array@.len() ==> (#[trigger] image_array@[i])@.width >= 1
            && image_array@[i]@.height >= 1,
        4 * target_width * target_height <= usize::MAX,
    ensures
        r@.len() == image_array@.len(),
        views_of(r@) == scaled_all(
            views_of(image_array@),
            target_width as int,
            target_height as int,
            pad,
        ),
        forall|i: int| 0 <= i < r@.len() ==> (#[trigger] r@[i]).width == target_width
            && r@[i].height == target_height && r@[i]@.wf(),
{
    let mut out: Vec<Bitmap> = Vec::new();
    let mut i: usize = 0;
    while i < image_array.len()
        invariant
            0 <= i <= image_array@.len(),
            out@.len() == i,
            forall|j: int| 0 <= j < image_array@.len() ==> (#[trigger] image_array@[j])@.width >= 1
                && image_array@[j]@.height >= 1,
            4 * target_width * target_height <= usize::MAX,
            forall|j: int| 0 <= j < i ==> (#[trigger] out@[j])@ == scaled(
                image_array@[j]@,
                target_width as int,
                target_height as int,
                pad,
            ),
            forall|j: int| 0 <= j < i ==> (#[trigger] out@[j]).width == target_width
                && out@[j].height == target_height && out@[j]@.wf(),
        decreases image_array@.len() - i,
    {
        let s = scale_image_iterable(&image_array[i], target_width, target_height, pad);
        out.push(s);
        i += 1;
    }
    proof {
        assert(views_of(out@) =~= scaled_all(
            views_of(image_array@),
            target_width as int,
            target_height as int,
            pad,
        ));
    }
    out
}

/// Sum of the widths of a row of tiles.
pub open spec fn widths_sum(tiles: Seq<BitmapView>) -> int
    decreases tiles.len(),
{
    if tiles.len() == 0 {
        0
    } else {
        widths_sum(tiles.drop_last()) + tiles.last().width
    }
}

/// A prefix of a row is no wider than the whole row.
proof fn lemma_widths_sum_prefix(s: Seq<BitmapView>, i: int)
    requires
        0 <= i <= s.len(),
        forall|j: int| 0 <= j < s.len() ==> (#[trigger] s[j]).width >= 0,
    ensures
        widths_sum(s.take(i)) <= widths_sum(s),
    decreases s.len(),
{
    if i == s.len() {
        assert(s.take(i) =~= s);
    } else {
        assert(forall|j: int| 0 <= j < s.len() - 1 ==> s.drop_last()[j] == s[j]);
        assert(s.drop_last().take(i) =~= s.take(i));
        lemma_widths_sum_prefix(s.drop_last(), i);
    }
}

/// The byte at offset `i` lies inside some tile of a row laid left to right
/// from `(x, y)`, each tile advancing the cursor by its own width.
pub open spec fn row_footprint(i: int, w: int, tiles: Seq<BitmapView>, x: int, y: int) -> bool
    decreases tiles.len(),
{
    if tiles.len() == 0 {
        false
    } else {
        byte_in_rect(i, w, x, y, tiles[0].width, tiles[0].height) || row_footprint(
            i,
            w,
            tiles.subrange(1, tiles.len() as int),
            x + tiles[0].width,
            y,
        )
    }
}

proof fn lemma_widths_sum_head(s: Seq<BitmapView>, j: int)
    requires
        1 <= j <= s.len(),
    ensures
        widths_sum(s.take(j)) == s[0].width + widths_sum(
            s.subrange(1, s.len() as int).take(j - 1),
        ),
    decreases j,
{
    let rest = s.subrange(1, s.len() as int);
    if j == 1 {
        lemma_widths_sum_one(s.take(1));
        assert(rest.take(0) =~= Seq::<BitmapView>::empty());
        assert(widths_sum(Seq::<BitmapView>::empty()) == 0);
    } else {
        lemma_widths_sum_head(s, j - 1);
        assert(s.take(j).drop_last() =~= s.take(j - 1));
        assert(rest.take(j - 1).drop_last() =~= rest.take(j - 2));
        assert(rest[j - 2] == s[j - 1]);
    }
}

/// A byte inside the rectangle of tile `j` of a row lies in the row's
/// footprint.
proof fn lemma_row_footprint_covers(
    i: int,
    w: int,
    tiles: Seq<BitmapView>,
    x: int,
    y: int,
    j: int,
)
    requires
        0 <= j < tiles.len(),
        byte_in_rect(i, w, x + widths_sum(tiles.take(j)), y, tiles[j].width, tiles[j].height),
    ensures
        row_footprint(i, w, tiles, x, y),
    decreases j,
{
    if j == 0 {
        assert(tiles.take(0) =~= Seq::<BitmapView>::empty());
        assert(widths_sum(Seq::<BitmapView>::empty()) == 0);
    } else {
        let rest = tiles.subrange(1, tiles.len() as int);
        lemma_widths_sum_head(tiles, j);
        assert(rest[j - 1] == tiles[j]);
        lemma_row_footprint_covers(i, w, rest, x + tiles[0].width, y, j - 1);
    }
}

/// Lays the bitmaps onto `new_image` left to right, at the given vertical
/// offset, each advancing by its own width; pixels outside the placed tiles
/// keep their value.
pub fn layout_horizontal(new_image: &mut Bitmap, images: &Vec<Bitmap>, y_offset: u32)
    requires
        widths_sum(views_of(images@)) <= u32::MAX,
    ensures
        final(new_image)@ == row_place(
            old(new_image)@,
            views_of(images@),
            0,
            y_offset as int,
        ),
        final(new_image).width == old(new_image).width,
        final(new_image).height == old(new_image).height,
        final(new_image)@.bytes.len() == old(new_image)@.bytes.len(),
        forall|i: int|
            0 <= i < old(new_image)@.bytes.len() && !row_footprint(
                i,
                old(new_image)@.width,
                views_of(images@),
                0,
                y_offset as int,
            ) ==> #[trigger] final(new_image)@.bytes[i] == old(new_image)@.bytes[i],
{
    let ghost v = views_of(images@);
    let ghost base = new_image@;
    proof {
        assert(v.skip(0) =~= v);
    }
    let mut x_offset: u32 = 0;
    let mut i: usize = 0;
    while i < images.len()
        invariant
            0 <= i <= v.len(),
            v == views_of(images@),
            v.len() == images@.len(),
            x_offset as int == widths_sum(v.take(i as int)),
            widths_sum(v) <= u32::MAX,
            row_place(base, v, 0, y_offset as int) == row_place(
                new_image@,
                v.skip(i as int),
                x_offset as int,
                y_offset as int,
            ),
            new_image.width == base.width,
            new_image.height == base.height,
            new_image@.bytes.len() == base.bytes.len(),
            forall|bi: int|
                0 <= bi < base.bytes.len() && !row_footprint(
                    bi,
                    base.width,
                    v,
                    0,
                    y_offset as int,
                ) ==> #[trigger] new_image@.bytes[bi] == base.bytes[bi],
        decreases v.len() - i,
    {
        proof {
            assert(forall|j: int| 0 <= j < v.len() ==> (#[trigger] v[j]).width >= 0);
            assert(v.skip(i as int)[0] == v[i as int]);
            assert(v.skip(i as int).subrange(1, v.skip(i as int).len() as int) =~= v.skip(i + 1));
            assert(v.take(i + 1).drop_last() =~= v.take(i as int));
            assert(v.take(i + 1).last() == v[i as int]);
            lemma_widths_sum_prefix(v, i + 1);
        }
        let ghost before = new_image@.bytes;
        overlay_onto(new_image, &images[i], x_offset, y_offset);
        proof {
            assert forall|bi: int|
                0 <= bi < base.bytes.len() && !row_footprint(
                    bi,
                    base.width,
                    v,
                    0,
                    y_offset as int,
                ) implies #[trigger] new_image@.bytes[bi] == base.bytes[bi] by {
                if byte_in_rect(
                    bi,
                    base.width,
                    x_offset as int,
                    y_offset as int,
                    v[i as int].width,
                    v[i as int].height,
                ) {
                    lemma_row_footprint_covers(
                        bi,
                        base.width,
                        v,
                        0,
                        y_offset as int,
                        i as int,
                    );
                } else {
                    assert(new_image@.bytes[bi] == before[bi]);
                }
            }
        }
        x_offset = x_offset + images[i].width;
        i += 1;
    }
    proof {
        assert(v.skip(v.len() as int).len() == 0);
    }
}

/// The layout compositor at spec level: the fixed per-count tile plan laid
/// onto a transparent canvas of the given size. A single bitmap is the
/// composite itself, untouched; from two on, every tile is scaled to the
/// reference size, two tiles share the top row, a third fills a full-width
/// bottom row of its own, and a fourth completes a two-by-two grid.
pub open spec fn composite(s: Seq<BitmapView>, cw: int, ch: int, pad: bool) -> BitmapView {
    if s.len() == 1 {
        s[0]
    } else {
        let rv = s[ref_index(s)];
        let tiles = scaled_all(s, rv.width, rv.height, pad);
        let base = blank_canvas(cw, ch);
        if s.len() == 2 {
            row_place(base, tiles, 0, 0)
        } else if s.len() == 3 {
            let top = row_place(base, tiles.take(2), 0, 0);
            let third = scaled(s[2], cw, rv.height, pad);
            row_place(top, seq![third], 0, rv.height)
        } else {
            let top = row_place(base, tiles.take(2), 0, 0);
            row_place(top, tiles.skip(2), 0, rv.height)
        }
    }
}

proof fn lemma_widths_sum_one(s: Seq<BitmapView>)
    requires
        s.len() == 1,
    ensures
        widths_sum(s) == s[0].width,
{
    assert(s.drop_last() =~= Seq::<BitmapView>::empty());
    assert(widths_sum(Seq::<BitmapView>::empty()) == 0);
}

proof fn lemma_widths_sum_two(s: Seq<BitmapView>)
    requires
        s.len() == 2,
    ensures
        widths_sum(s) == s[0].width + s[1].width,
{
    lemma_widths_sum_one(s.drop_last());
}

/// Arranges the bitmaps onto one canvas under the count-specific tile plan,
/// scaling each to the reference size under the requested mode; a single
/// bitmap is returned untouched.
pub fn combine_images(images: &Vec<Bitmap>, total_width: u32, total_height: u32, pad: bool) -> (r:
    Result<Bitmap, ProcessingError>)
    requires
        forall|i: int| 0 <= i < images@.len() ==> ((#[trigger] images@[i])@.wf()
            && images@[i]@.width >= 1 && images@[i]@.height >= 1 && 2 * images@[i]@.width
            <= u32::MAX),
        4 * total_width * total_height <= usize::MAX,
        images@.len() >= 2 ==> 4 * (total_width as int) * views_of(images@)[ref_index(
            views_of(images@),
        )].height <= usize::MAX,
    ensures
        images@.len() == 0 ==> r is Err && r->Err_0 == ProcessingError::EmptyInput,
        images@.len() > 4 ==> r is Err && r->Err_0 == ProcessingError::TooManyTiles,
        1 <= images@.len() <= 4 ==> r is Ok && {
            let b = r->Ok_0;
            &&& b@ == composite(views_of(images@), total_width as int, total_height as int, pad)
            &&& b@.wf()
            &&& (images@.len() >= 2 ==> b.width == total_width && b.height == total_height)
            &&& (images@.len() == 1 ==> b.width == images@[0].width && b.height
                == images@[0].height)
        },
{
    let ghost v = views_of(images@);
    if images.len() == 0 {
        return Err(ProcessingError::EmptyInput);
    }
    if images.len() == 1 {
        return Ok(images[0].duplicate());
    }
    if images.len() > 4 {
        return Err(ProcessingError::TooManyTiles);
    }
    let top_idx = match find_img_with_most_pixels(images) {
        Ok(i) => i,
        Err(_) => {
            return Err(ProcessingError::ReferenceSelectionFailed);
        },
    };
    let ref_width = images[top_idx].width;
    let ref_height = images[top_idx].height;
    let ghost rv = v[ref_index(v)];
    let mut scaled_images = scale_all_images_to_same_size(images, ref_width, ref_height, pad);
    let ghost tiles = scaled_all(v, rv.width, rv.height, pad);
    let mut new_image = new_canvas(total_width, total_height);
    if images.len() == 2 {
        proof {
            lemma_widths_sum_two(views_of(scaled_images@));
        }
        layout_horizontal(&mut new_image, &scaled_images, 0);
    } else if images.len() == 3 {
        let _rest = scaled_images.split_off(2);
        proof {
            lemma_widths_sum_two(views_of(scaled_images@));
            assert(views_of(scaled_images@) =~= tiles.take(2));
        }
        layout_horizontal(&mut new_image, &scaled_images, 0);
        let third = scale_image_iterable(&images[2], total_width, ref_height, pad);
        let mut third_row: Vec<Bitmap> = Vec::new();
        third_row.push(third);
        proof {
            lemma_widths_sum_one(views_of(third_row@));
            assert(views_of(third_row@) =~= seq![scaled(v[2], total_width as int, rv.height, pad)]);
        }
        layout_horizontal(&mut new_image, &third_row, ref_height);
    } else {
        let second_row = scaled_images.split_off(2);
        proof {
            lemma_widths_sum_two(views_of(scaled_images@));
            lemma_widths_sum_two(views_of(second_row@));
            assert(views_of(scaled_images@) =~= tiles.take(2));
            assert(views_of(second_row@) =~= tiles.skip(2));
        }
        layout_horizontal(&mut new_image, &scaled_images, 0);
        layout_horizontal(&mut new_image, &second_row, ref_height);
    }
    Ok(new_image)
}

/// The RGB bytes of a packed RGBA buffer: every fourth byte, the alpha
/// sample, dropped.
pub open spec fn rgb_of_rgba(s: Seq<u8>) -> Seq<u8> {
    Seq::new(s.len() / 4 * 3, |i: int| s[4 * (i / 3) + i % 3])
}

/// A packed RGB buffer widened to RGBA: every pixel keeps its samples and
/// gains a fully opaque alpha sample.
pub open spec fn rgba_of_rgb(s: Seq<u8>) -> Seq<u8> {
    Seq::new(s.len() / 3 * 4, |i: int| if i % 4 == 3 {
        255u8
    } else {
        s[3 * (i / 4) + i % 4]
    })
}

/// Drops the alpha channel of a packed RGBA buffer.
fn strip_alpha(bytes: &Vec<u8>) -> (r: Vec<u8>)
    requires
        bytes@.len() % 4 == 0,
    ensures
        r@ == rgb_of_rgba(bytes@),
{
    let n = bytes.len() / 4;
    let mut rgb: Vec<u8> = Vec::new();
    let mut p: usize = 0;
    while p < n
        invariant
            0 <= p <= n,
            n == bytes@.len() / 4,
            bytes@.len() % 4 == 0,
            bytes@.len() <= usize::MAX,
            rgb@.len() == 3 * p,
            forall|i: int| 0 <= i < 3 * p ==> rgb@[i] == bytes@[4 * (i / 3) + i % 3],
        decreases n - p,
    {
        proof {
            vstd::arithmetic::div_mod::lemma_fundamental_div_mod(bytes@.len() as int, 4);
        }
        rgb.push(bytes[4 * p]);
        rgb.push(bytes[4 * p + 1]);
        rgb.push(bytes[4 * p + 2]);
        p += 1;
    }
    proof {
        assert(rgb@ =~= rgb_of_rgba(bytes@));
    }
    rgb
}

/// Widens a packed RGB buffer to RGBA with a fully opaque alpha.
fn widen_rgb(rgb: &Vec<u8>) -> (r: Vec<u8>)
    requires
        rgb@.len() % 3 == 0,
        rgb@.len() / 3 * 4 <= usize::MAX,
    ensures
        r@ == rgba_of_rgb(rgb@),
{
    let n = rgb.len() / 3;
    let mut rgba: Vec<u8> = Vec::new();
    let mut p: usize = 0;
    while p < n
        invariant
            0 <= p <= n,
            n == rgb@.len() / 3,
            rgb@.len() % 3 == 0,
            rgb@.len() <= usize::MAX,
            rgb@.len() / 3 * 4 <= usize::MAX,
            rgba@.len() == 4 * p,
            forall|i: int| 0 <= i < 4 * p ==> rgba@[i] == (if i % 4 == 3 {
                255u8
            } else {
                rgb@[3 * (i / 4) + i % 4]
            }),
        decreases n - p,
    {
        proof {
            vstd::arithmetic::div_mod::lemma_fundamental_div_mod(rgb@.len() as int, 3);
        }
        rgba.push(rgb[3 * p]);
        rgba.push(rgb[3 * p + 1]);
        rgba.push(rgb[3 * p + 2]);
        rgba.push(255);
        p += 1;
    }
    proof {
        assert(rgba@ =~= rgba_of_rgb(rgb@));
    }
    rgba
}

/// The backdrop shapes the smoothing pass accepts: nonzero, and not narrower
/// than the blur window while taller than it.
pub open spec fn blurable(w: int, h: int) -> bool {
    &&& w >= 1
    &&& h >= 1
    &&& (w >= 50 || h <= 50)
}

/// Applies the fixed-radius Gaussian blur to the backdrop composite, per RGB
/// channel; the result comes back fully opaque with the same dimensions. A
/// backdrop whose geometry the blur pass cannot take is refused with
/// `BlurGeometryError`.
pub fn blur_background(background: &Bitmap) -> (r: Result<Bitmap, ProcessingError>)
    requires
        background@.wf(),
    ensures
        r is Ok <==> blurable(background@.width, background@.height),
        r is Err ==> r->Err_0 == ProcessingError::BlurGeometryError,
        r is Ok ==> {
            let b = r->Ok_0;
            &&& b.width == background.width
            &&& b.height == background.height
            &&& b@.bytes == rgba_of_rgb(
                gaussian_blur_px(
                    rgb_of_rgba(background@.bytes),
                    background@.width,
                    background@.height,
                ),
            )
            &&& b@.wf()
        },
{
    let width = background.width;
    let height = background.height;
    if width == 0 || height == 0 || (width < 50 && height > 50) {
        return Err(ProcessingError::BlurGeometryError);
    }
    let ghost bw = background@.width;
    let ghost bh = background@.height;
    proof {
        assert(4 * bw * bh == 4 * (bw * bh) && 3 * bw * bh == 3 * (bw * bh)) by (nonlinear_arith);
        assert((4 * (bw * bh)) % 4 == 0 && (4 * (bw * bh)) / 4 == bw * bh) by (nonlinear_arith)
            requires
                0 <= bw * bh,
        ;
        assert((3 * (bw * bh)) % 3 == 0 && (3 * (bw * bh)) / 3 == bw * bh) by (nonlinear_arith)
            requires
                0 <= bw * bh,
        ;
    }
    let bytes = background.rgba_bytes();
    let mut rgb = strip_alpha(&bytes);
    let pixels: usize = (width as usize) * (height as usize);
    if rgb.len() != 3 * pixels {
        return Err(ProcessingError::BlurGeometryError);
    }
    match gaussian_blur_rgb(&mut rgb, width, height) {
        Ok(()) => {},
        Err(_) => {
            return Err(ProcessingError::BlurGeometryError);
        },
    }
    let rgba = widen_rgb(&rgb);
    Ok(Bitmap::from_rgba(width, height, rgba))
}

/// The final artifact: the encoded composite plus its dimensions.
pub struct CombinedThumbnail {
    pub inner: Vec<u8>,
    pub width: u32,
    pub height: u32,
}

impl CombinedThumbnail {
    /// The encoded bytes of the artifact.
    pub open spec fn spec_bytes(&self) -> Seq<u8> {
        self.inner@
    }

    /// Encodes the merged raster as PNG and records the final dimensions.
    /// Encoding succeeds whenever the raster's dimensions are nonzero and
    /// within the PNG dimension cap.
    pub fn new(image: &Bitmap, width: u32, height: u32) -> (r: Result<
        CombinedThumbnail,
        ProcessingError,
    >)
        ensures
            r is Ok ==> (r->Ok_0).spec_bytes() == png_px(
                image@.bytes,
                image@.width,
                image@.height,
            ) && (r->Ok_0).width == width && (r->Ok_0).height == height,
            r is Err ==> r->Err_0 == ProcessingError::EncodingError,
            (1 <= image@.width <= 0x7fff_ffff && 1 <= image@.height <= 0x7fff_ffff) ==> r is Ok,
    {
        thumbnail_of(encode_png(image), width, height)
    }

    pub fn to_bytes(&self) -> (r: &[u8])
        ensures
            r@ == self.spec_bytes(),
    {
        self.inner.as_slice()
    }
}

/// Builds the artifact from the encoder's result: the encoded bytes verbatim
/// on success, `EncodingError` otherwise.
pub fn thumbnail_of(encoded: Result<Vec<u8>, image::ImageError>, width: u32, height: u32) -> (r:
    Result<CombinedThumbnail, ProcessingError>)
    ensures
        encoded is Ok ==> r is Ok && (r->Ok_0).spec_bytes() == (encoded->Ok_0)@ && (
        r->Ok_0).width == width && (r->Ok_0).height == height,
        encoded is Err ==> r is Err && r->Err_0 == ProcessingError::EncodingError,
{
    match encoded {
        Ok(bytes) => Ok(CombinedThumbnail { inner: bytes, width, height }),
        Err(_) => Err(ProcessingError::EncodingError),
    }
}

/// The full pipeline at spec level: the two composites, the blurred
/// backdrop, the merge at the origin, and the PNG encoding.
pub open spec fn thumbnail_px(s: Seq<BitmapView>) -> Seq<u8> {
    let rv = s[ref_index(s)];
    let cw = canvas_width(s.len() as int, rv.width);
    let ch = canvas_height(s.len() as int, rv.height);
    let fg = composite(s, cw, ch, true);
    let bg = composite(s, cw, ch, false);
    let blurred = BitmapView {
        bytes: rgba_of_rgb(gaussian_blur_px(rgb_of_rgba(bg.bytes), bg.width, bg.height)),
        width: bg.width,
        height: bg.height,
    };
    let merged = place(blurred, fg, 0, 0);
    png_px(merged.bytes, merged.width, merged.height)
}

/// The size bound demanded of every input bitmap: the doubled reference
/// dimensions stay within the PNG encoder's dimension cap, and the doubled
/// canvas stays addressable.
pub open spec fn small_enough(b: BitmapView) -> bool {
    &&& 2 * b.width <= 0x7fff_ffff
    &&& 2 * b.height <= 0x7fff_ffff
    &&& 16 * b.width * b.height <= usize::MAX
}

/// Renders the whole composite preview: the padded foreground laid over the
/// blurred stretched backdrop, encoded as PNG. On one to four inputs the
/// request succeeds unless the canvas is too narrow and tall to blur.
pub fn generate_combined_thumbnail(images: Vec<Bitmap>) -> (r: Result<
    CombinedThumbnail,
    ProcessingError,
>)
    requires
        forall|i: int| 0 <= i < images@.len() ==> ((#[trigger] images@[i])@.wf()
            && images@[i]@.width >= 1 && images@[i]@.height >= 1 && small_enough(images@[i]@)),
    ensures
        images@.len() == 0 ==> r is Err && r->Err_0 == ProcessingError::EmptyInput,
        images@.len() > 4 ==> r is Err && r->Err_0 == ProcessingError::TooManyTiles,
        1 <= images@.len() <= 4 ==> {
            let v = views_of(images@);
            let rv = v[ref_index(v)];
            let cw = canvas_width(v.len() as int, rv.width);
            let ch = canvas_height(v.len() as int, rv.height);
            &&& (r is Ok <==> blurable(cw, ch))
            &&& (r is Ok ==> (r->Ok_0).width as int == cw && (r->Ok_0).height as int == ch && (
            r->Ok_0).spec_bytes() == thumbnail_px(v))
            &&& (r is Err ==> r->Err_0 == ProcessingError::BlurGeometryError)
        },
{
    let ghost v = views_of(images@);
    if images.len() == 0 {
        return Err(ProcessingError::EmptyInput);
    }
    if images.len() > 4 {
        return Err(ProcessingError::TooManyTiles);
    }
    proof {
        lemma_ref_index_props(v);
    }
    let ghost rv = v[ref_index(v)];
    let size = match get_total_img_size(&images) {
        Ok(s) => s,
        Err(e) => {
            return Err(e);
        },
    };
    let width = size.0;
    let height = size.1;
    proof {
        assert(4 * (width as int) * (height as int) <= 16 * (rv.width * rv.height)
            && 4 * (width as int) * rv.height <= 16 * (rv.width * rv.height)
            && 16 * rv.width * rv.height == 16 * (rv.width * rv.height)) by (nonlinear_arith)
            requires
                0 <= rv.width,
                0 <= rv.height,
                width as int == canvas_width(v.len() as int, rv.width),
                height as int == canvas_height(v.len() as int, rv.height),
                width as int <= 2 * rv.width,
                height as int <= 2 * rv.height,
        ;
    }
    let combined = match combine_images(&images, width, height, true) {
        Ok(b) => b,
        Err(e) => {
            return Err(e);
        },
    };
    let background = match combine_images(&images, width, height, false) {
        Ok(b) => b,
        Err(e) => {
            return Err(e);
        },
    };
    let mut blurred_bg = match blur_background(&background) {
        Ok(b) => b,
        Err(e) => {
            return Err(e);
        },
    };
    overlay_onto(&mut blurred_bg, &combined, 0, 0);
    CombinedThumbnail::new(&blurred_bg, width, height)
}

/// Determinism of the pipeline: two input lists whose bitmaps agree in
/// dimensions and pixel bytes yield byte-identical encoded output.
pub proof fn lemma_pipeline_deterministic(a: Seq<BitmapView>, b: Seq<BitmapView>)
    requires
        a.len() == b.len(),
        forall|i: int| 0 <= i < a.len() ==> (#[trigger] a[i]).width == b[i].width && a[i].height
            == b[i].height && a[i].bytes =~= b[i].bytes,
    ensures
        thumbnail_px(a) == thumbnail_px(b),
{
    assert(a =~~= b);
}

} // verus!
