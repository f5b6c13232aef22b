//! Human-readable size rendering for the display layer.

use vstd::prelude::*;

verus! {

/// The text that the size formatter produces for a byte count; a function of
/// the count alone.
pub uninterp spec fn byte_size_text(bytes: u64) -> Seq<char>;

/// Relies on `bytesize::ByteSize`'s `Display` implementation: its default
/// rendering (whole bytes below one binary kilobyte, one-decimal binary
/// units above) depends on the byte count alone.
#[verifier::external_body]
fn render_byte_size(bytes: u64) -> (r: String)
    ensures
        r@ == byte_size_text(bytes),
{
    format!("{}", bytesize::ByteSize::b(bytes))
}

/// Format a byte count as human-readable text.
pub fn format_size(bytes: u64) -> (r: String)
    ensures
        r@ == byte_size_text(bytes),
{
    render_byte_size(bytes)
}

} // verus!
