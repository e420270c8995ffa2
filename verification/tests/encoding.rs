use base64::Engine;
use mandelbrot::bounds::PixelBounds;
use mandelbrot::encode::{fractal_data_url, png_bytes, EncodeError};
use mandelbrot::escape::{intensity, INTENSITY_CEILING, ITERATION_LIMIT};
use mandelbrot::page::{form_page, viewer_page};

fn bounds(width: usize, height: usize) -> PixelBounds {
    PixelBounds::new(width, height).expect("well-formed bounds")
}

#[test]
fn png_rejects_mismatched_buffer() {
    let b = bounds(4, 4);
    let short = vec![0u8; 15];
    assert_eq!(png_bytes(&short, b), Err(EncodeError::BufferSizeMismatch));
    let long = vec![0u8; 17];
    assert_eq!(png_bytes(&long, b), Err(EncodeError::BufferSizeMismatch));
    assert_eq!(fractal_data_url(&short, b), Err(EncodeError::BufferSizeMismatch));
}

#[test]
fn png_round_trips_grayscale_samples() {
    let b = bounds(3, 2);
    let pixels = vec![0u8, 51, 102, 153, 204, 255];
    let bytes = png_bytes(&pixels, b).expect("encoding succeeds");
    assert_eq!(&bytes[1..4], b"PNG");
    let decoded = image::load_from_memory_with_format(&bytes, image::ImageFormat::Png)
        .expect("decoding succeeds");
    let gray = decoded.to_luma8();
    assert_eq!(gray.width(), 3);
    assert_eq!(gray.height(), 2);
    assert_eq!(gray.into_raw(), pixels);
}

#[test]
fn data_url_embeds_the_png() {
    let b = bounds(3, 2);
    let pixels = vec![10u8, 20, 30, 40, 50, 60];
    let url = fractal_data_url(&pixels, b).expect("encoding succeeds");
    let prefix = "data:image/png;base64,";
    assert!(url.starts_with(prefix));
    let decoded_png = base64::engine::general_purpose::STANDARD
        .decode(&url[prefix.len()..])
        .expect("valid base64");
    assert_eq!(decoded_png, png_bytes(&pixels, b).expect("encoding succeeds"));
    let gray = image::load_from_memory_with_format(&decoded_png, image::ImageFormat::Png)
        .expect("decoding succeeds")
        .to_luma8();
    assert_eq!(gray.into_raw(), pixels);
}

#[test]
fn packaging_is_deterministic() {
    let b = bounds(5, 3);
    let pixels: Vec<u8> = (0u8..15).collect();
    let first = png_bytes(&pixels, b).expect("encoding succeeds");
    let second = png_bytes(&pixels, b).expect("encoding succeeds");
    assert_eq!(first, second);
    let url1 = fractal_data_url(&pixels, b).expect("encoding succeeds");
    let url2 = fractal_data_url(&pixels, b).expect("encoding succeeds");
    assert_eq!(url1, url2);
}

#[test]
fn intensity_mapping_exact_values() {
    assert_eq!(ITERATION_LIMIT, 255);
    assert_eq!(INTENSITY_CEILING, 255);
    assert_eq!(intensity(None), 0);
    assert_eq!(intensity(Some(0)), 255);
    assert_eq!(intensity(Some(1)), 254);
    assert_eq!(intensity(Some(254)), 1);
}

#[test]
fn pages_hold_the_expected_markup() {
    let form = form_page();
    assert!(form.contains("<form action=\"/mandelbrot\" method=\"post\">"));
    assert!(form.contains("name=\"upperleft\""));
    assert!(form.contains("name=\"lowerright\""));
    let viewer = viewer_page("data:image/png;base64,QUJD");
    assert_eq!(
        viewer,
        "\n        <title>Mandelbrot Viewer</title>\n        <img src=\"data:image/png;base64,QUJD\" />\n        "
    );
}
