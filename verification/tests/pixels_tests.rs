use graphshell::app::{GraphBrowserApp, GraphIntent, WebViewId};
use graphshell::graph::Position;
use graphshell::pixels::{
    embedder_image_to_rgba, favicon_intent, thumbnail_capture_result, thumbnail_result, EmbedderImage, PixelFormat,
    NODE_THUMBNAIL_HEIGHT, NODE_THUMBNAIL_WIDTH,
};

fn image(format: PixelFormat, width: u32, height: u32, data: Vec<u8>) -> EmbedderImage {
    EmbedderImage { width, height, format, data }
}

#[test]
fn test_grey_pixels_become_opaque_rgba() {
    let (w, h, rgba) = embedder_image_to_rgba(&image(PixelFormat::K8, 2, 1, vec![10, 200]));
    assert_eq!((w, h), (2, 1));
    assert_eq!(rgba, vec![10, 10, 10, 255, 200, 200, 200, 255]);
}

#[test]
fn test_grey_alpha_pixels_keep_alpha() {
    let (_, _, rgba) = embedder_image_to_rgba(&image(PixelFormat::KA8, 1, 1, vec![7, 8]));
    assert_eq!(rgba, vec![7, 7, 7, 8]);
}

#[test]
fn test_rgb_pixels_drop_trailing_bytes() {
    let (_, _, rgba) = embedder_image_to_rgba(&image(PixelFormat::RGB8, 1, 1, vec![1, 2, 3, 4, 5]));
    assert_eq!(rgba, vec![1, 2, 3, 255]);
}

#[test]
fn test_rgba_pixels_are_kept() {
    let (_, _, rgba) = embedder_image_to_rgba(&image(PixelFormat::RGBA8, 1, 1, vec![1, 2, 3, 4, 5]));
    assert_eq!(rgba, vec![1, 2, 3, 4, 5]);
}

#[test]
fn test_bgra_pixels_are_swapped() {
    let (_, _, rgba) = embedder_image_to_rgba(&image(PixelFormat::BGRA8, 2, 1, vec![1, 2, 3, 4, 5, 6, 7, 8]));
    assert_eq!(rgba, vec![3, 2, 1, 4, 7, 6, 5, 8]);
}

#[test]
fn test_favicon_intent_needs_a_mapped_webview() {
    let mut app = GraphBrowserApp::new_for_testing();
    let key = app.graph.add_node("https://a.com".into(), Position { x: 0, y: 0 });
    let favicon = image(PixelFormat::RGB8, 1, 1, vec![9, 8, 7]);
    assert!(favicon_intent(&app, WebViewId::new(1), &favicon).is_none());
    app.map_webview_to_node(WebViewId::new(1), key);
    match favicon_intent(&app, WebViewId::new(1), &favicon) {
        Some(GraphIntent::SetNodeFavicon { key: k, rgba, width, height }) => {
            assert_eq!(k, key);
            assert_eq!(rgba, vec![9, 8, 7, 255]);
            assert_eq!((width, height), (1, 1));
        },
        _ => panic!("expected a favicon intent"),
    }
}

#[test]
fn test_screenshot_becomes_png_thumbnail() {
    let rgba: Vec<u8> = (0..(4 * 3 * 4)).map(|i| (i * 7 % 256) as u8).collect();
    let r = thumbnail_capture_result(WebViewId::new(2), "https://a.com".to_string(), Some((rgba, 4, 3)));
    assert_eq!(r.webview_id, WebViewId::new(2));
    assert_eq!(r.requested_url, "https://a.com");
    assert_eq!((r.width, r.height), (NODE_THUMBNAIL_WIDTH, NODE_THUMBNAIL_HEIGHT));
    let png = r.png_bytes.expect("the thumbnail encodes");
    assert_eq!(&png[..8], &[0x89, b'P', b'N', b'G', 0x0d, 0x0a, 0x1a, 0x0a]);
}

#[test]
fn test_failed_screenshot_gives_empty_result() {
    let r = thumbnail_capture_result(WebViewId::new(2), "https://a.com".to_string(), None);
    assert!(r.png_bytes.is_none());
    assert_eq!((r.width, r.height), (0, 0));
    let packed = thumbnail_result(WebViewId::new(3), "u".to_string(), Some((Some(vec![1]), 5, 6)));
    assert_eq!(packed.png_bytes, Some(vec![1]));
    assert_eq!((packed.width, packed.height), (5, 6));
}
