//! The descriptor of a tiled image, and the reconstruction of its views.

use std::collections::HashMap;
use vstd::prelude::*;
use vstd::view::View as _;

use crate::canvas::{BoundsError, Canvas};
use crate::geometry::{Replacer, Vec2};
use crate::parser::parse;
use crate::raster::Raster;
use crate::sources::Sources;
use crate::syntax::{parse_text, ParseError};

verus! {

/// A source image that a descriptor names: where to find it, and its extent.
/// The locator means something to whoever fetches the image, and nothing here.
#[derive(Debug, PartialEq, Eq)]
pub struct Resource {
    pub src: String,
    pub width: usize,
    pub height: usize,
}

/// One output image: its extent, and the instructions that paint it, in the
/// order in which they are applied.
#[derive(Debug, PartialEq, Eq)]
pub struct View {
    pub width: u32,
    pub height: u32,
    pub coords: Vec<String>,
}

/// A descriptor: a format tag, the resources by key, and the views.
#[derive(Debug, PartialEq, Eq)]
pub struct Ptimg {
    pub ptimg_version: usize,
    pub resources: HashMap<String, Resource>,
    pub views: Vec<View>,
}

/// Why a view could not be rendered.
#[derive(Clone, Copy, Debug, PartialEq, Eq, Structural)]
pub enum RenderError {
    /// The view's extent is more than memory can address.
    Oversize,
    /// The text at `index` is not an instruction.
    Parse { index: usize, error: ParseError },
    /// No source is bound to the key of the instruction at `index`.
    Resolution { index: usize },
    /// The instruction at `index` asks for a rectangle that its source does
    /// not hold.
    Bounds { index: usize, bounds: BoundsError },
}

/// Why a descriptor could not be restored: the first view that failed, and how.
#[derive(Clone, Copy, Debug, PartialEq, Eq, Structural)]
pub struct RestoreError {
    pub view: usize,
    pub error: RenderError,
}

/// The copy that the instruction `text` asks for.
pub open spec fn copy_of(text: Seq<char>) -> Replacer {
    parse_text(text)->Ok_0.1
}

/// The source image that the instruction `text` copies from.
pub open spec fn image_of(text: Seq<char>, sources: Sources) -> Raster {
    sources.resolve(parse_text(text)->Ok_0.0)->Some_0
}

/// The canvas after the instruction `text`, which stands at `index` in its
/// view, or the reason why the instruction cannot be applied.
pub open spec fn step(canvas: Raster, text: Seq<char>, index: int, sources: Sources) -> Result<
    Raster,
    RenderError,
> {
    match parse_text(text) {
        Err(error) => Err(RenderError::Parse { index: index as usize, error }),
        Ok((key, replacer)) => match sources.resolve(key) {
            None => Err(RenderError::Resolution { index: index as usize }),
            Some(image) => if replacer.fits(image.width, image.height) {
                Ok(canvas.paint(image, replacer))
            } else {
                Err(
                    RenderError::Bounds {
                        index: index as usize,
                        bounds: BoundsError {
                            src: replacer.src,
                            size: replacer.size,
                            extent: Vec2 { x: image.width as u32, y: image.height as u32 },
                        },
                    },
                )
            },
        },
    }
}

/// The canvas after the first `n` instructions of `texts`, applied in order,
/// or the failure of the first instruction among them that fails.
pub open spec fn compose(canvas: Raster, texts: Seq<Seq<char>>, n: int, sources: Sources) -> Result<
    Raster,
    RenderError,
>
    decreases n,
{
    if n <= 0 {
        Ok(canvas)
    } else {
        match compose(canvas, texts, n - 1, sources) {
            Err(e) => Err(e),
            Ok(painted) => step(painted, texts[n - 1], n - 1, sources),
        }
    }
}

/// Once an instruction has failed, the instructions behind it change nothing.
pub proof fn lemma_failure_stays(
    canvas: Raster,
    texts: Seq<Seq<char>>,
    n: int,
    m: int,
    sources: Sources,
)
    requires
        0 <= n <= m,
        compose(canvas, texts, n, sources) is Err,
    ensures
        compose(canvas, texts, m, sources) == compose(canvas, texts, n, sources),
    decreases m - n,
{
    if n < m {
        lemma_failure_stays(canvas, texts, n, m - 1, sources);
    }
}

impl View {
    /// The instructions as texts.
    pub open spec fn texts(self) -> Seq<Seq<char>> {
        Seq::new(self.coords@.len(), |i: int| self.coords@[i]@)
    }

    /// What rendering the view gives: a clear canvas of the view's extent with
    /// all the instructions applied in order, or the first failure.
    pub open spec fn rendering(self, sources: Sources) -> Result<Raster, RenderError> {
        if !Canvas::allocatable(self.width, self.height) {
            Err(RenderError::Oversize)
        } else {
            compose(
                Raster::blank(self.width as nat, self.height as nat),
                self.texts(),
                self.texts().len() as int,
                sources,
            )
        }
    }

    /// Whether `r` is what rendering the view from `sources` gives.
    pub open spec fn renders_to(self, sources: Sources, r: Result<Canvas, RenderError>) -> bool {
        match r {
            Ok(canvas) => self.rendering(sources) == Ok::<Raster, RenderError>(canvas@),
            Err(e) => self.rendering(sources) == Err::<Raster, RenderError>(e),
        }
    }

    /// Renders the view from `sources` onto a fresh canvas.
    pub fn render(&self, sources: &Sources) -> (r: Result<Canvas, RenderError>)
        ensures
            self.renders_to(*sources, r),
    {
        let mut canvas = match Canvas::new(self.width, self.height) {
            Some(canvas) => canvas,
            None => {
                return Err(RenderError::Oversize);
            },
        };
        let ghost blank = canvas@;
        let ghost texts = self.texts();
        let mut i: usize = 0;
        while i < self.coords.len()
            invariant
                i <= self.coords.len(),
                texts == self.texts(),
                Canvas::allocatable(self.width, self.height),
                blank == Raster::blank(self.width as nat, self.height as nat),
                compose(blank, texts, i as int, *sources) == Ok::<Raster, RenderError>(canvas@),
            decreases self.coords.len() - i,
        {
            proof {
                if compose(blank, texts, i + 1, *sources) is Err {
                    lemma_failure_stays(blank, texts, i + 1, texts.len() as int, *sources);
                }
            }
            let (key, replacer) = match parse(self.coords[i].as_str()) {
                Ok(read) => read,
                Err(error) => {
                    return Err(RenderError::Parse { index: i, error });
                },
            };
            let image = match sources.find(key) {
                Some(image) => image,
                None => {
                    return Err(RenderError::Resolution { index: i });
                },
            };
            match replacer.apply(image, &mut canvas) {
                Ok(()) => {},
                Err(bounds) => {
                    return Err(RenderError::Bounds { index: i, bounds });
                },
            }
            i += 1;
        }
        Ok(canvas)
    }
}

impl Ptimg {
    /// Whether `r` is what restoring the descriptor from `sources` gives: one
    /// canvas for each view, in the order of the views, each the rendering of
    /// its view; or, where a view fails, the first view that does and its
    /// failure.
    pub open spec fn restores_to(
        self,
        sources: Sources,
        r: Result<Vec<Canvas>, RestoreError>,
    ) -> bool {
        match r {
            Ok(canvases) => {
                &&& canvases@.len() == self.views@.len()
                &&& forall|i: int|
                    0 <= i < self.views@.len() ==> (#[trigger] self.views@[i]).rendering(sources)
                        == Ok::<Raster, RenderError>(canvases@[i]@)
            },
            Err(e) => {
                &&& e.view < self.views@.len()
                &&& self.views@[e.view as int].rendering(sources) == Err::<Raster, RenderError>(
                    e.error,
                )
                &&& forall|i: int|
                    0 <= i < e.view ==> (#[trigger] self.views@[i]).rendering(sources) is Ok
            },
        }
    }

    /// Renders every view of the descriptor from `sources`, each onto a canvas
    /// of its own. No canvas is returned unless every view renders.
    pub fn restore(&self, sources: &Sources) -> (r: Result<Vec<Canvas>, RestoreError>)
        ensures
            self.restores_to(*sources, r),
    {
        let mut canvases: Vec<Canvas> = Vec::new();
        let mut v: usize = 0;
        while v < self.views.len()
            invariant
                v <= self.views.len(),
                canvases@.len() == v,
                forall|i: int|
                    0 <= i < v ==> (#[trigger] self.views@[i]).rendering(*sources) == Ok::<
                        Raster,
                        RenderError,
                    >(canvases@[i]@),
            decreases self.views.len() - v,
        {
            match self.views[v].render(sources) {
                Ok(canvas) => {
                    canvases.push(canvas);
                },
                Err(error) => {
                    return Err(RestoreError { view: v, error });
                },
            }
            v += 1;
        }
        Ok(canvases)
    }
}

} // verus!
