use vstd::prelude::*;
use crate::blog_storage::{BlogEntry, PostMetadata};

verus! {

/// The HTML that comrak renders for a Markdown text with default options.
pub uninterp spec fn markdown_html(md: Seq<char>) -> Seq<char>;

/// Relies on comrak::markdown_to_html with `Options::default()`: the result
/// depends on the Markdown text alone.
#[verifier::external_body]
fn render_markdown(md: &str) -> (r: String)
    ensures
        r@ == markdown_html(md@),
{
    comrak::markdown_to_html(md, &comrak::Options::default())
}

/// Builds the entry of a post from its front-matter, its Markdown body, the
/// file's creation time and its base name.
pub fn entry_from_document(
    metadata: PostMetadata,
    body: &str,
    creation_date: i64,
    filename: String,
) -> (r: BlogEntry)
    ensures
        r.description == metadata,
        r.html@ == markdown_html(body@),
        r.creation_date == creation_date,
        r.filename == filename,
{
    BlogEntry { description: metadata, html: render_markdown(body), creation_date, filename }
}

} // verus!
