//! Images handed over by the browser engine: favicons turned into the
//! RGBA8 pixels that nodes keep, and screenshots turned into PNG
//! thumbnails (resized and encoded by the `image` crate).

use vstd::prelude::*;

use crate::app::intent::GraphIntent;
use crate::app::{GraphBrowserApp, WebViewId};
use crate::desktop::ThumbnailCaptureResult;
use crate::graph::NodeKey;

verus! {

/// How the engine lays out the pixels of an image.
#[derive(Clone, Copy, Debug, PartialEq, Eq, Structural)]
pub enum PixelFormat {
    /// One grey byte.
    K8,
    /// A grey byte and an alpha byte.
    KA8,
    /// Red, green, blue.
    RGB8,
    /// Red, green, blue, alpha.
    RGBA8,
    /// Blue, green, red, alpha.
    BGRA8,
}

/// An image as the engine hands it over.
pub struct EmbedderImage {
    pub width: u32,
    pub height: u32,
    pub format: PixelFormat,
    pub data: Vec<u8>,
}

/// The bytes per pixel of `format`.
pub open spec fn bytes_per_pixel(format: PixelFormat) -> nat {
    match format {
        PixelFormat::K8 => 1,
        PixelFormat::KA8 => 2,
        PixelFormat::RGB8 => 3,
        PixelFormat::RGBA8 => 4,
        PixelFormat::BGRA8 => 4,
    }
}

/// Byte `c` (0 red, 1 green, 2 blue, 3 alpha) of pixel `p` of `data`,
/// as RGBA: grey goes to all three colours, a missing alpha is opaque.
pub open spec fn rgba_byte(format: PixelFormat, data: Seq<u8>, p: int, c: int) -> u8 {
    match format {
        PixelFormat::K8 => if c < 3 { data[p] } else { 255 },
        PixelFormat::KA8 => if c < 3 { data[2 * p] } else { data[2 * p + 1] },
        PixelFormat::RGB8 => if c < 3 { data[3 * p + c] } else { 255 },
        PixelFormat::RGBA8 => data[4 * p + c],
        PixelFormat::BGRA8 => if c == 3 { data[4 * p + 3] } else { data[4 * p + 2 - c] },
    }
}

/// Byte `c` of pixel `p` of an RGBA8 buffer.
pub open spec fn pixel_byte(rgba: Seq<u8>, p: int, c: int) -> u8 {
    rgba[4 * p + c]
}

/// `rgba` holds the whole pixels of `data`, in order, as RGBA8: a trailing
/// part of a pixel is dropped, except that RGBA8 data is taken as it is.
pub open spec fn is_rgba_of(rgba: Seq<u8>, format: PixelFormat, data: Seq<u8>) -> bool {
    if format == PixelFormat::RGBA8 {
        rgba == data
    } else {
        let n = data.len() / bytes_per_pixel(format);
        &&& rgba.len() == 4 * n
        &&& forall|p: int, c: int| 0 <= p < n && 0 <= c < 4 ==> #[trigger] pixel_byte(rgba, p, c) == rgba_byte(format, data, p, c)
    }
}

/// Convert an engine image to RGBA8 bytes, with its width and height.
pub fn embedder_image_to_rgba(image: &EmbedderImage) -> (r: (usize, usize, Vec<u8>))
    ensures
        r.0 == image.width,
        r.1 == image.height,
        is_rgba_of(r.2@, image.format, image.data@),
{
    let width = image.width as usize;
    let height = image.height as usize;
    let data = &image.data;
    let bpp: usize = match image.format {
        PixelFormat::K8 => 1,
        PixelFormat::KA8 => 2,
        PixelFormat::RGB8 => 3,
        PixelFormat::RGBA8 => 4,
        PixelFormat::BGRA8 => 4,
    };
    let mut out: Vec<u8> = Vec::new();
    if image.format == PixelFormat::RGBA8 {
        let mut i: usize = 0;
        while i < data.len()
            invariant
                i <= data@.len(),
                out@ == data@.take(i as int),
            decreases data@.len() - i,
        {
            out.push(data[i]);
            proof {
                assert(data@.take(i + 1) =~= data@.take(i as int).push(data@[i as int]));
            }
            i = i + 1;
        }
        proof {
            assert(data@.take(data@.len() as int) =~= data@);
        }
        return (width, height, out);
    }
    let n = data.len() / bpp;
    let mut p: usize = 0;
    while p < n
        invariant
            image.format != PixelFormat::RGBA8,
            bpp == bytes_per_pixel(image.format),
            n == data@.len() / bpp as nat,
            data@.len() <= usize::MAX,
            p <= n,
            out@.len() == 4 * p,
            forall|q: int, c: int| 0 <= q < p && 0 <= c < 4 ==> #[trigger] pixel_byte(out@, q, c) == rgba_byte(image.format, data@, q, c),
        decreases n - p,
    {
        assert(n * bpp <= data@.len()) by (nonlinear_arith)
            requires n == data@.len() / bpp as nat, bpp > 0;
        assert(p * bpp + bpp <= data@.len()) by (nonlinear_arith)
            requires p + 1 <= n, n * bpp <= data@.len(), bpp > 0;
        let base = p * bpp;
        let (r, g, b, a): (u8, u8, u8, u8) = match image.format {
            PixelFormat::K8 => (data[base], data[base], data[base], 255),
            PixelFormat::KA8 => (data[base], data[base], data[base], data[base + 1]),
            PixelFormat::RGB8 => (data[base], data[base + 1], data[base + 2], 255),
            PixelFormat::RGBA8 => (data[base], data[base + 1], data[base + 2], data[base + 3]),
            PixelFormat::BGRA8 => (data[base + 2], data[base + 1], data[base], data[base + 3]),
        };
        let ghost before = out@;
        out.push(r);
        out.push(g);
        out.push(b);
        out.push(a);
        proof {
            assert forall|q: int, c: int| 0 <= q < p + 1 && 0 <= c < 4 implies #[trigger] pixel_byte(out@, q, c) == rgba_byte(image.format, data@, q, c) by {
                if q < p {
                    assert(out@[4 * q + c] == before[4 * q + c]);
                    assert(pixel_byte(before, q, c) == rgba_byte(image.format, data@, q, c));
                }
            }
        }
        p = p + 1;
    }
    (width, height, out)
}

/// The intent that stores a favicon loaded for `webview_id` on its node:
/// `None` when the webview is not mapped to a node.
pub fn favicon_intent(graph_app: &GraphBrowserApp, webview_id: WebViewId, favicon: &EmbedderImage) -> (intent: Option<GraphIntent>)
    requires
        graph_app.wf(),
    ensures
        !graph_app.webview_nodes().contains_key(webview_id.id) ==> intent is None,
        graph_app.webview_nodes().contains_key(webview_id.id) ==> (intent matches Some(GraphIntent::SetNodeFavicon { key, rgba, width, height })
            && key == graph_app.webview_nodes()[webview_id.id]
            && is_rgba_of(rgba@, favicon.format, favicon.data@)
            && width == favicon.width && height == favicon.height),
{
    let (width, height, rgba) = embedder_image_to_rgba(favicon);
    match graph_app.get_node_for_webview(webview_id) {
        Some(key) => Some(GraphIntent::SetNodeFavicon { key, rgba, width: width as u32, height: height as u32 }),
        None => None,
    }
}

/// Width of the thumbnails kept on nodes.
pub const NODE_THUMBNAIL_WIDTH: u32 = 256;

/// Height of the thumbnails kept on nodes.
pub const NODE_THUMBNAIL_HEIGHT: u32 = 192;

/// The RGBA8 pixels and size that the `image` crate gives when it resizes
/// the `width` x `height` RGBA8 image `rgba` to fill `nwidth` x `nheight`
/// with the triangle filter.
pub uninterp spec fn resized_to_fill(rgba: Seq<u8>, width: u32, height: u32, nwidth: u32, nheight: u32) -> (Seq<u8>, u32, u32);

/// `DynamicImage::resize_to_fill` of the `image` crate on an RGBA8 image,
/// with the triangle filter; the result is read back as RGBA8
/// (`to_rgba8`). The contract names the result, and states that the
/// buffer that `to_rgba8` builds holds exactly four bytes per pixel.
/// Sizes of zero are left out: the crate divides by them.
#[verifier::external_body]
fn resize_rgba_to_fill(rgba: Vec<u8>, width: u32, height: u32, nwidth: u32, nheight: u32) -> (r: (Vec<u8>, u32, u32))
    requires
        width > 0,
        height > 0,
        nwidth > 0,
        nheight > 0,
        rgba@.len() == width * height * 4,
    ensures
        (r.0@, r.1, r.2) == resized_to_fill(rgba@, width, height, nwidth, nheight),
        r.0@.len() == r.1 * r.2 * 4,
{
    let image = image::RgbaImage::from_raw(width, height, rgba).unwrap();
    let resized = image::DynamicImage::ImageRgba8(image)
        .resize_to_fill(nwidth, nheight, image::imageops::FilterType::Triangle)
        .to_rgba8();
    let (w, h) = resized.dimensions();
    (resized.into_raw(), w, h)
}

/// The PNG file that the `image` crate writes for the `width` x `height`
/// RGBA8 image `rgba`, or `None` where it reports an encoding error.
pub uninterp spec fn png_encoding(rgba: Seq<u8>, width: u32, height: u32) -> Option<Seq<u8>>;

/// `DynamicImage::write_to` of the `image` crate with `ImageFormat::Png`,
/// into an in-memory buffer. The contract names the result.
#[verifier::external_body]
fn encode_png(rgba: Vec<u8>, width: u32, height: u32) -> (png: Option<Vec<u8>>)
    requires
        rgba@.len() == width * height * 4,
    ensures
        png matches Some(b) ==> png_encoding(rgba@, width, height) == Some(b@),
        png is None ==> png_encoding(rgba@, width, height) is None,
{
    let image = image::DynamicImage::ImageRgba8(image::RgbaImage::from_raw(width, height, rgba).unwrap());
    let mut cursor = std::io::Cursor::new(Vec::new());
    match image.write_to(&mut cursor, image::ImageFormat::Png) {
        Ok(()) => Some(cursor.into_inner()),
        Err(_) => None,
    }
}

/// The capture result for `webview_id`, from the encoded thumbnail (PNG
/// bytes, where encoding worked, and size), or `None` where the screenshot
/// failed, which gives no bytes and a size of zero.
pub fn thumbnail_result(
    webview_id: WebViewId,
    requested_url: String,
    encoded: Option<(Option<Vec<u8>>, u32, u32)>,
) -> (r: ThumbnailCaptureResult)
    ensures
        r.webview_id == webview_id,
        r.requested_url@ == requested_url@,
        encoded is None ==> r.png_bytes is None && r.width == 0 && r.height == 0,
        encoded matches Some(e) ==> r.png_bytes == e.0 && r.width == e.1 && r.height == e.2,
{
    match encoded {
        Some((png_bytes, width, height)) => ThumbnailCaptureResult { webview_id, requested_url, png_bytes, width, height },
        None => ThumbnailCaptureResult { webview_id, requested_url, png_bytes: None, width: 0, height: 0 },
    }
}

/// Turn a screenshot of `webview_id` (RGBA8 pixels with their size, or
/// `None` where it failed) into the capture result: the screenshot is
/// resized to fill a thumbnail and encoded as PNG.
pub fn thumbnail_capture_result(
    webview_id: WebViewId,
    requested_url: String,
    screenshot: Option<(Vec<u8>, u32, u32)>,
) -> (r: ThumbnailCaptureResult)
    requires
        screenshot matches Some(s) ==> s.1 > 0 && s.2 > 0 && s.0@.len() == s.1 * s.2 * 4,
    ensures
        r.webview_id == webview_id,
        r.requested_url@ == requested_url@,
        screenshot is None ==> r.png_bytes is None && r.width == 0 && r.height == 0,
        screenshot matches Some(s) ==> {
            let (pixels, w, h) = resized_to_fill(s.0@, s.1, s.2, NODE_THUMBNAIL_WIDTH, NODE_THUMBNAIL_HEIGHT);
            &&& r.width == w
            &&& r.height == h
            &&& (match r.png_bytes { Some(b) => Some(b@), None => None::<Seq<u8>> }) == png_encoding(pixels, w, h)
        },
{
    let encoded = match screenshot {
        Some((rgba, width, height)) => {
            let (pixels, w, h) = resize_rgba_to_fill(rgba, width, height, NODE_THUMBNAIL_WIDTH, NODE_THUMBNAIL_HEIGHT);
            let png = encode_png(pixels, w, h);
            Some((png, w, h))
        },
        None => None,
    };
    thumbnail_result(webview_id, requested_url, encoded)
}

} // verus!
