//! Bringing a gif into the library: which dropped files are taken, where an
//! imported file is stored, and which address is fetched.

use crate::text;
use crate::thumbnail::{extension_of, path_extension, string_option};
use vstd::prelude::*;
use vstd::string::*;

verus! {

broadcast use vstd::string::group_string_axioms;

/// A dropped file is taken when its extension is `gif` in any ASCII case.
pub open spec fn is_gif_name(path: Seq<char>) -> bool {
    match path_extension(path) {
        Some(e) => text::eq_ignore_ascii_case(e, seq!['g', 'i', 'f']),
        None => false,
    }
}

/// The extensions of the formats the library takes: gif, png, jpeg and
/// webp, in any ASCII case.
pub open spec fn is_supported_extension(e: Seq<char>) -> bool {
    ||| text::eq_ignore_ascii_case(e, seq!['g', 'i', 'f'])
    ||| text::eq_ignore_ascii_case(e, seq!['p', 'n', 'g'])
    ||| text::eq_ignore_ascii_case(e, seq!['j', 'p', 'g'])
    ||| text::eq_ignore_ascii_case(e, seq!['j', 'p', 'e', 'g'])
    ||| text::eq_ignore_ascii_case(e, seq!['w', 'e', 'b', 'p'])
}

/// A file dropped on the window is taken for import when its extension
/// names a supported format.
pub open spec fn is_supported_name(path: Seq<char>) -> bool {
    match path_extension(path) {
        Some(e) => is_supported_extension(e),
        None => false,
    }
}

/// Whether a file dropped on the window is taken for import: see
/// [`is_supported_name`].
pub fn is_supported_file(path: &str) -> (r: bool)
    ensures
        r == is_supported_name(path@),
{
    match extension_of(path) {
        Some(e) => {
            proof {
                reveal_strlit("gif");
                reveal_strlit("png");
                reveal_strlit("jpg");
                reveal_strlit("jpeg");
                reveal_strlit("webp");
            }
            text::equal_ignoring_ascii_case(e.as_str(), "gif") || text::equal_ignoring_ascii_case(
                e.as_str(),
                "png",
            ) || text::equal_ignoring_ascii_case(e.as_str(), "jpg")
                || text::equal_ignoring_ascii_case(e.as_str(), "jpeg")
                || text::equal_ignoring_ascii_case(e.as_str(), "webp")
        },
        None => false,
    }
}

/// Whether a file is an animated gif rather than a still image, by its
/// extension: see [`is_gif_name`].
pub fn is_gif_file(path: &str) -> (r: bool)
    ensures
        r == is_gif_name(path@),
{
    match extension_of(path) {
        Some(e) => {
            let gif = "gif";
            proof {
                reveal_strlit("gif");
            }
            text::equal_ignoring_ascii_case(e.as_str(), gif)
        },
        None => false,
    }
}

/// The extension an imported file is stored with: the picked file's, or
/// `gif` when it has none.
pub open spec fn stored_extension(source_path: Seq<char>) -> Seq<char> {
    match path_extension(source_path) {
        Some(e) => e,
        None => seq!['g', 'i', 'f'],
    }
}

/// The name an imported file is stored under in the library folder: a
/// fresh `stem` (a random id, so names never clash), a dot, and the
/// picked file's extension (see [`stored_extension`]).
pub fn stored_file_name(stem: &str, source_path: &str) -> (r: String)
    ensures
        r@ == stem@ + seq!['.'] + stored_extension(source_path@),
{
    let mut name = String::from_str(stem);
    let dot = ".";
    proof {
        reveal_strlit(".");
    }
    name.append(dot);
    match extension_of(source_path) {
        Some(e) => name.append(e.as_str()),
        None => {
            let gif = "gif";
            proof {
                reveal_strlit("gif");
            }
            name.append(gif);
        },
    }
    name
}

/// The usual extension of the image format that `image::guess_format`
/// recognises from a file's first bytes; `None` when it recognises none.
pub uninterp spec fn sniffed_extension(bytes: Seq<u8>) -> Option<Seq<char>>;

/// Calls `image::guess_format` on the bytes and takes the first of the
/// recognised format's `ImageFormat::extensions_str`. Claimed: the result
/// is [`sniffed_extension`] of the bytes.
#[verifier::external_body]
fn format_extension(bytes: &[u8]) -> (r: Option<String>)
    ensures
        string_option(r) == sniffed_extension(bytes@),
{
    image::guess_format(bytes).ok().map(|format| format.extensions_str()[0].to_string())
}

/// The extension a downloaded file is stored with: that of the format its
/// bytes are recognised as, or `gif` when none is recognised.
pub open spec fn downloaded_extension(bytes: Seq<u8>) -> Seq<char> {
    match sniffed_extension(bytes) {
        Some(e) => e,
        None => seq!['g', 'i', 'f'],
    }
}

/// The name a downloaded file is stored under: a fresh `stem`, a dot, and
/// the extension of the format its bytes are (see
/// [`downloaded_extension`]), so a png fetched from a link is stored as a
/// png.
pub fn downloaded_file_name(stem: &str, bytes: &[u8]) -> (r: String)
    ensures
        r@ == stem@ + seq!['.'] + downloaded_extension(bytes@),
{
    let mut name = String::from_str(stem);
    proof {
        reveal_strlit(".");
        reveal_strlit("gif");
    }
    name.append(".");
    match format_extension(bytes) {
        Some(e) => name.append(e.as_str()),
        None => name.append("gif"),
    }
    name
}

/// The address to download from what was typed: trimmed; `None` when
/// nothing but whitespace was typed, and then nothing is fetched.
pub fn url_to_fetch(url_input: &str) -> (r: Option<String>)
    ensures
        text::trim(url_input@).len() == 0 ==> r is None,
        text::trim(url_input@).len() > 0 ==> (r matches Some(u) && u@ == text::trim(url_input@)),
{
    let url = text::trimmed(url_input);
    if url.as_str().is_empty() {
        None
    } else {
        Some(url)
    }
}

} // verus!
