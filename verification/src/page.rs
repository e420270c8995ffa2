//! The two HTML pages of the viewer.
//!
//! The transport hands these strings to its own response machinery; their
//! content is fixed here so that what the browser receives is exactly what
//! the contracts state.

use vstd::prelude::*;
use vstd::string::StringExecFns;

verus! {

/// The landing form through which the two corner points are submitted.
pub fn form_page() -> (r: String)
    ensures
        r@ == (
        "\n        <title>Mandelbrot Viewer</title>\n        <form action=\"/mandelbrot\" method=\"post\">\n            <input type=\"text\" name=\"upperleft\">\n            <input type=\"text\" name=\"lowerright\">\n            <button type=\"submit\">View Mandelbrot</button>\n        </form>\n        ")@,
{
    String::from_str(
        "\n        <title>Mandelbrot Viewer</title>\n        <form action=\"/mandelbrot\" method=\"post\">\n            <input type=\"text\" name=\"upperleft\">\n            <input type=\"text\" name=\"lowerright\">\n            <button type=\"submit\">View Mandelbrot</button>\n        </form>\n        ",
    )
}

/// The page that shows one rendered image: the given URL, wrapped in an
/// `img` element.
pub fn viewer_page(data_url: &str) -> (r: String)
    ensures
        r@ == ("\n        <title>Mandelbrot Viewer</title>\n        <img src=\"")@ + data_url@ + (
        "\" />\n        ")@,
{
    let mut page = String::from_str("\n        <title>Mandelbrot Viewer</title>\n        <img src=\"");
    page.append(data_url);
    page.append("\" />\n        ");
    page
}

} // verus!
