use vstd::prelude::*;

verus! {

/// The images of a sequence of strings, in order.
pub open spec fn texts_view(s: Seq<String>) -> Seq<Seq<char>> {
    s.map_values(|x: String| x@)
}

/// The segments that word-wrapping a text at a given width produces. The
/// result depends on the text and the width alone; it is given a name here
/// rather than spelled out, and [`wrap_text`] ties it to the wrapping call.
pub uninterp spec fn wrap_of(s: Seq<char>, width: nat) -> Seq<Seq<char>>;

/// Relies on textwrap::wrap: word-wraps a text at `width` columns with no
/// break inside a word, yielding the wrapped segments in order.
#[verifier::external_body]
pub(crate) fn wrap_text(s: &str, width: usize) -> (r: Vec<String>)
    ensures
        texts_view(r@) == wrap_of(s@, width as nat),
{
    textwrap::wrap(s, width).into_iter().map(|seg| seg.into_owned()).collect()
}

} // verus!
