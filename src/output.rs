use vstd::prelude::*;
use vstd::string::{StrSliceExecFns, StringSliceAdditionalSpecFns};

verus! {

/// What `minify_html::minify`, with the default configuration, makes of a document's bytes.
pub uninterp spec fn minified(src: Seq<u8>) -> Seq<u8>;

/// Relies on `minify_html::minify` with `Cfg::new()`: the result depends on the bytes alone.
#[verifier::external_body]
fn minify_bytes(src: &[u8]) -> (r: Vec<u8>)
    ensures
        r@ == minified(src@),
{
    minify_html::minify(src, &minify_html::Cfg::new())
}

/// The bytes written for an output file: `content` minified, or as it stands where
/// minifying is switched off.
pub fn minified_output(content: &str, minify: bool) -> (r: Vec<u8>)
    ensures
        r@ == (if minify {
            minified(content.spec_bytes())
        } else {
            content.spec_bytes()
        }),
{
    if minify {
        minify_bytes(content.as_bytes())
    } else {
        content.as_bytes_vec()
    }
}

} // verus!
