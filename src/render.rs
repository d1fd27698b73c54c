//! The result of a render: the first page's pixels and its links.

use vstd::prelude::*;
use crate::links::{Frame, LinkDesc, frame_links, link_views, page_links};
use crate::world::{Lookup, World};
use crate::identity::CoordView;
use crate::preprocess::expand;
use vstd::utf8::encode_utf8;

verus! {

/// RGBA pixels, four bytes each, row by row.
pub struct Raster {
    pub width: u32,
    pub height: u32,
    pub data: Vec<u8>,
}

/// What the compiler and the rasterizer made of a document's first page.
pub struct PageOutput {
    pub raster: Raster,
    pub frame: Frame,
}

/// Pixel buffer and links of one render.
pub struct RenderResult {
    pub width: u32,
    pub height: u32,
    pub data: Vec<u8>,
    pub links: Vec<LinkDesc>,
}

/// Why a render gave no result.
pub enum RenderError {
    /// The document has no pages.
    NoPages,
    /// The pixel buffer does not hold four bytes for each pixel.
    RasterSize,
    /// A link's geometry does not fit in the fixed-point range.
    Geometry,
}

impl RenderResult {
    pub fn new(width: u32, height: u32, data: Vec<u8>, links: Vec<LinkDesc>) -> (r: RenderResult)
        ensures
            r.width == width,
            r.height == height,
            r.data@ == data@,
            r.links@ == links@,
    {
        RenderResult { width, height, data, links }
    }
}

/// Builds the result from the first page, if the document has one, at
/// resolution `res`.
pub fn render_first_page(first: Option<PageOutput>, res: i64) -> (r: Result<RenderResult, RenderError>)
    ensures
        first is None ==> r is Err && r->Err_0 is NoPages,
        first matches Some(p) ==> {
            let ok_size = p.raster.data@.len() == 4 * p.raster.width * p.raster.height;
            let walk = frame_links(p.frame, (0, 0), res as int);
            &&& !ok_size ==> r is Err && r->Err_0 is RasterSize
            &&& ok_size && walk is None ==> r is Err && r->Err_0 is Geometry
            &&& ok_size && walk is Some ==> (r matches Ok(rr) && rr.width == p.raster.width
                && rr.height == p.raster.height && rr.data@ == p.raster.data@
                && link_views(rr.links@) == walk->Some_0)
        },
        r matches Ok(rr) ==> rr.data@.len() == 4 * rr.width * rr.height,
{
    match first {
        None => Err(RenderError::NoPages),
        Some(p) => {
            let w = p.raster.width as u64;
            let h = p.raster.height as u64;
            proof {
                assert(w * h <= 0xffff_ffff * 0xffff_ffff) by (nonlinear_arith)
                    requires
                        w <= 0xffff_ffff,
                        h <= 0xffff_ffff,
                ;
            }
            let pixels: u128 = w as u128 * h as u128;
            proof {
                let (wi, hi) = (p.raster.width as int, p.raster.height as int);
                assert(4 * (wi * hi) == 4 * wi * hi) by (nonlinear_arith);
            }
            if p.raster.data.len() as u128 != 4 * pixels {
                return Err(RenderError::RasterSize);
            }
            match page_links(&p.frame, res) {
                Some(links) => Ok(RenderResult::new(p.raster.width, p.raster.height, p.raster.data, links)),
                None => Err(RenderError::Geometry),
            }
        },
    }
}

/// A document submitted after another replaces it whole: the main identity
/// then resolves to the new text alone.
pub proof fn lemma_resubmission_replaces(before: World, after: World, src: Seq<char>, path: Seq<char>)
    requires
        after.wf(),
        after.main_key() == (None::<CoordView>, path),
        after.main_source() == Some(expand(src)),
        after.package_files() == before.package_files(),
    ensures
        after.lookup(after.main_key()) == Lookup::Found(encode_utf8(expand(src))),
{
}

} // verus!
