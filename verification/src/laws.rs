//! What holds of compositing: where copies overlap the later one shows, what
//! no copy lands on stays as it was, and the result is a function of the
//! descriptor and the sources alone.

use vstd::prelude::*;
use vstd::view::View as _;

use crate::canvas::Canvas;
use crate::descriptor::{
    compose, copy_of, image_of, Ptimg, RenderError, RestoreError, View,
};
use crate::geometry::Replacer;
use crate::raster::{Pixel, Raster};
use crate::sources::Sources;

verus! {

/// Every pixel of a blank image is clear.
pub proof fn lemma_blank_is_clear(width: nat, height: nat, x: int, y: int)
    requires
        Raster::blank(width, height).contains(x, y),
    ensures
        Raster::blank(width, height).wf(),
        Raster::blank(width, height).at(x, y) == Pixel::clear(),
{
    Raster::blank(width, height).lemma_index(x, y);
}

/// Of two copies that land on one pixel, the later one shows, whatever the
/// sources hold.
pub proof fn lemma_later_copy_wins(
    canvas: Raster,
    first_source: Raster,
    first: Replacer,
    second_source: Raster,
    second: Replacer,
    x: int,
    y: int,
)
    requires
        canvas.wf(),
        canvas.contains(x, y),
        first.covers(x, y),
        second.covers(x, y),
    ensures
        canvas.paint(first_source, first).paint(second_source, second).at(x, y)
            == second_source.at(second.source_x(x), second.source_y(y)),
{
    canvas.lemma_paint_at(first_source, first, x, y);
    canvas.paint(first_source, first).lemma_paint_at(second_source, second, x, y);
}

/// Instructions that apply keep the extent of the canvas.
pub proof fn lemma_compose_keeps_extent(
    canvas: Raster,
    texts: Seq<Seq<char>>,
    n: int,
    sources: Sources,
)
    requires
        canvas.wf(),
        compose(canvas, texts, n, sources) is Ok,
    ensures
        compose(canvas, texts, n, sources)->Ok_0.wf(),
        compose(canvas, texts, n, sources)->Ok_0.width == canvas.width,
        compose(canvas, texts, n, sources)->Ok_0.height == canvas.height,
    decreases n,
{
    if n > 0 {
        lemma_compose_keeps_extent(canvas, texts, n - 1, sources);
    }
}

/// A view that renders gives an image of the extent that the view declares.
pub proof fn lemma_rendering_has_the_extent_of_the_view(view: View, sources: Sources)
    requires
        view.rendering(sources) is Ok,
    ensures
        view.rendering(sources)->Ok_0.wf(),
        view.rendering(sources)->Ok_0.width == view.width,
        view.rendering(sources)->Ok_0.height == view.height,
{
    lemma_compose_keeps_extent(
        Raster::blank(view.width as nat, view.height as nat),
        view.texts(),
        view.texts().len() as int,
        sources,
    );
}

/// A pixel that none of the first `n` instructions lands on is as it was.
pub proof fn lemma_untouched_pixel_stays(
    canvas: Raster,
    texts: Seq<Seq<char>>,
    n: int,
    sources: Sources,
    x: int,
    y: int,
)
    requires
        canvas.wf(),
        canvas.contains(x, y),
        compose(canvas, texts, n, sources) is Ok,
        forall|j: int| 0 <= j < n ==> !#[trigger] copy_of(texts[j]).covers(x, y),
    ensures
        compose(canvas, texts, n, sources)->Ok_0.at(x, y) == canvas.at(x, y),
    decreases n,
{
    if n > 0 {
        let earlier = compose(canvas, texts, n - 1, sources)->Ok_0;
        lemma_untouched_pixel_stays(canvas, texts, n - 1, sources, x, y);
        lemma_compose_keeps_extent(canvas, texts, n - 1, sources);
        assert(!copy_of(texts[n - 1]).covers(x, y));
        earlier.lemma_paint_at(image_of(texts[n - 1], sources), copy_of(texts[n - 1]), x, y);
    }
}

/// After the first `n` instructions, a pixel shows what the last instruction
/// that lands on it copied there, whatever earlier instructions put there.
pub proof fn lemma_last_copy_wins(
    canvas: Raster,
    texts: Seq<Seq<char>>,
    n: int,
    sources: Sources,
    k: int,
    x: int,
    y: int,
)
    requires
        canvas.wf(),
        canvas.contains(x, y),
        0 <= k < n,
        compose(canvas, texts, n, sources) is Ok,
        copy_of(texts[k]).covers(x, y),
        forall|j: int| k < j < n ==> !#[trigger] copy_of(texts[j]).covers(x, y),
    ensures
        compose(canvas, texts, n, sources)->Ok_0.at(x, y) == image_of(texts[k], sources).at(
            copy_of(texts[k]).source_x(x),
            copy_of(texts[k]).source_y(y),
        ),
    decreases n,
{
    let earlier = compose(canvas, texts, n - 1, sources)->Ok_0;
    lemma_compose_keeps_extent(canvas, texts, n - 1, sources);
    earlier.lemma_paint_at(image_of(texts[n - 1], sources), copy_of(texts[n - 1]), x, y);
    if k < n - 1 {
        lemma_last_copy_wins(canvas, texts, n - 1, sources, k, x, y);
        assert(!copy_of(texts[n - 1]).covers(x, y));
    }
}

/// An image is its extent and its bytes: the image made of the bytes of an
/// image is that image.
pub proof fn lemma_bytes_hold_the_image(image: Raster)
    requires
        image.wf(),
    ensures
        image.bytes().len() == 4 * (image.width * image.height),
        Raster::from_bytes(image.width, image.height, image.bytes()) == image,
{
    let again = Raster::from_bytes(image.width, image.height, image.bytes());
    assert forall|i: int| 0 <= i < image.pixels.len() implies again.pixels[i]
        == image.pixels[i] by {
        let p = image.pixels[i];
        assert(image.bytes()[4 * i] == image.pixels[(4 * i) / 4].channel((4 * i) % 4));
        assert(image.bytes()[4 * i + 1] == image.pixels[(4 * i + 1) / 4].channel((4 * i + 1) % 4));
        assert(image.bytes()[4 * i + 2] == image.pixels[(4 * i + 2) / 4].channel((4 * i + 2) % 4));
        assert(image.bytes()[4 * i + 3] == image.pixels[(4 * i + 3) / 4].channel((4 * i + 3) % 4));
    }
    assert(again.pixels =~= image.pixels);
}

/// What `to_rgba8` gives for a canvas, `from_rgba8` makes into that canvas
/// again.
pub proof fn lemma_bytes_hold_the_canvas(canvas: Canvas)
    ensures
        canvas@.bytes().len() == 4 * (canvas@.width * canvas@.height),
        Raster::from_bytes(canvas@.width, canvas@.height, canvas@.bytes()) == canvas@,
{
    canvas.lemma_well_formed();
    lemma_bytes_hold_the_image(canvas@);
}

/// The bytes of the image made of `bytes` are `bytes`.
pub proof fn lemma_image_holds_the_bytes(width: nat, height: nat, bytes: Seq<u8>)
    requires
        bytes.len() == 4 * (width * height),
    ensures
        Raster::from_bytes(width, height, bytes).wf(),
        Raster::from_bytes(width, height, bytes).bytes() == bytes,
{
    let image = Raster::from_bytes(width, height, bytes);
    assert forall|k: int| 0 <= k < bytes.len() implies image.bytes()[k] == bytes[k] by {
        let i = k / 4;
        assert(0 <= i < image.pixels.len());
        assert(k == 4 * i + k % 4);
    }
    assert(image.bytes() =~= bytes);
}

/// Rendering is a function of the view and the sources: whatever two runs on
/// the same view and sources return, they agree, on the failure or on the
/// canvas, byte for byte.
pub proof fn lemma_render_is_repeatable(
    view: View,
    sources: Sources,
    once: Result<Canvas, RenderError>,
    again: Result<Canvas, RenderError>,
)
    requires
        view.renders_to(sources, once),
        view.renders_to(sources, again),
    ensures
        once is Ok <==> again is Ok,
        once is Err ==> once->Err_0 == again->Err_0,
        once is Ok ==> once->Ok_0@ == again->Ok_0@ && once->Ok_0@.bytes() == again->Ok_0@.bytes(),
{
}

/// Restoring is a function of the descriptor and the sources: whatever two
/// runs on the same descriptor and sources return, they agree, on the failure
/// or on every canvas, byte for byte.
pub proof fn lemma_restore_is_repeatable(
    descriptor: Ptimg,
    sources: Sources,
    once: Result<Vec<Canvas>, RestoreError>,
    again: Result<Vec<Canvas>, RestoreError>,
)
    requires
        descriptor.restores_to(sources, once),
        descriptor.restores_to(sources, again),
    ensures
        once is Ok <==> again is Ok,
        once is Err ==> once->Err_0 == again->Err_0,
        once is Ok ==> once->Ok_0@.len() == again->Ok_0@.len(),
        once is Ok ==> forall|i: int|
            0 <= i < once->Ok_0@.len() ==> {
                &&& (#[trigger] once->Ok_0@[i])@ == again->Ok_0@[i]@
                &&& once->Ok_0@[i]@.bytes() == again->Ok_0@[i]@.bytes()
            },
{
    match (once, again) {
        (Ok(a), Ok(b)) => {
            assert forall|i: int| 0 <= i < a@.len() implies (#[trigger] a@[i])@ == b@[i]@ by {
                assert(descriptor.views@[i].rendering(sources) == Ok::<Raster, RenderError>(
                    a@[i]@,
                ));
                assert(descriptor.views@[i].rendering(sources) == Ok::<Raster, RenderError>(
                    b@[i]@,
                ));
            }
        },
        (Ok(a), Err(e)) => {
            assert(descriptor.views@[e.view as int].rendering(sources) is Ok);
        },
        (Err(e), Ok(b)) => {
            assert(descriptor.views@[e.view as int].rendering(sources) is Ok);
        },
        (Err(e), Err(f)) => {
            if e.view < f.view {
                assert(descriptor.views@[e.view as int].rendering(sources) is Ok);
            } else if f.view < e.view {
                assert(descriptor.views@[f.view as int].rendering(sources) is Ok);
            }
        },
    }
}

} // verus!
