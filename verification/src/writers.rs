//! Rendering of a finalized post: the metadata header, and the full byte
//! content of the destination file, merging with any previous content. The
//! commit itself (temporary file in the destination's directory, then one
//! atomic replace) is filesystem work and lives with the caller; everything
//! it writes comes from here.

use vstd::prelude::*;
use vstd::string::StrSliceExecFns;
use vstd::string::StringExecFns;
use vstd::utf8::encode_utf8;

use crate::external::slug_of;
use crate::external::slugify;
use crate::models::PostModel;
use crate::text::copy_strings;
use crate::text::join_comma;
use crate::text::join_comma_strings;
use crate::text::sort_le;
use crate::text::sort_strings;
use crate::text::str_views;

verus! {

/// The slug a finalized model is written with: the chosen slug, or the one
/// derived from the title when no slug was chosen.
pub open spec fn spec_effective_slug(m: PostModel) -> Seq<char> {
    if m.slug is Some {
        m.slug->0@
    } else {
        slug_of(m.title->0@)
    }
}

/// The tags line: the tags sorted lexicographically and comma-and-space
/// joined; the line is omitted entirely when no tags were chosen.
pub open spec fn spec_tags_line(m: PostModel) -> Seq<char> {
    if m.tags@.len() == 0 {
        Seq::empty()
    } else {
        "Tags: "@ + join_comma(sort_le(str_views(m.tags@))) + seq!['\n']
    }
}

/// The rendered metadata header: the fields in this fixed order, one
/// newline-terminated `Key: value` line each.
pub open spec fn spec_render(m: PostModel) -> Seq<char> {
    "Title: "@ + m.title->0@ + seq!['\n'] + "Slug: "@ + spec_effective_slug(m) + seq!['\n']
        + "Date: "@ + m.created_at.spec_format() + seq!['\n'] + "Category: "@ + m.category->0@
        + seq!['\n'] + spec_tags_line(m)
}

/// Render the metadata header of a finalized post model.
pub fn render_post(m: &PostModel) -> (r: String)
    requires
        m.title is Some,
        m.category is Some,
        m.created_at.wf(),
    ensures
        r@ == spec_render(*m),
{
    let mut out = String::new();
    out.append("Title: ");
    if let Some(t) = &m.title {
        out.append(t.as_str());
    }
    out.push('\n');
    out.append("Slug: ");
    match &m.slug {
        Some(s) => {
            out.append(s.as_str());
        },
        None => {
            if let Some(t) = &m.title {
                let derived = slugify(t.as_str());
                out.append(derived.as_str());
            }
        },
    }
    out.push('\n');
    out.append("Date: ");
    let date = m.created_at.format();
    out.append(date.as_str());
    out.push('\n');
    out.append("Category: ");
    if let Some(c) = &m.category {
        out.append(c.as_str());
    }
    out.push('\n');
    if m.tags.len() > 0 {
        out.append("Tags: ");
        let sorted = sort_strings(copy_strings(&m.tags));
        let joined = join_comma_strings(&sorted);
        out.append(joined.as_str());
        out.push('\n');
    }
    proof {
        assert(out@ =~= spec_render(*m));
    }
    out
}

/// The full content of the destination file after a commit: the rendered
/// header, one blank separator line, then the file's previous content, byte
/// for byte, when there was one.
pub open spec fn spec_compose(m: PostModel, existing: Option<Seq<u8>>) -> Seq<u8> {
    encode_utf8(spec_render(m).push('\n')) + (if existing is Some {
        existing->0
    } else {
        Seq::<u8>::empty()
    })
}

/// The bytes to commit for a finalized post, given the previous content of
/// the destination file, if it exists.
pub fn compose_post_file(m: &PostModel, existing: Option<&Vec<u8>>) -> (r: Vec<u8>)
    requires
        m.title is Some,
        m.category is Some,
        m.created_at.wf(),
    ensures
        r@ == spec_compose(
            *m,
            match existing {
                Some(b) => Some(b@),
                None => None,
            },
        ),
{
    let mut content = render_post(m);
    content.push('\n');
    let mut bytes = content.as_str().as_bytes_vec();
    proof {
        assert(bytes@ == encode_utf8(spec_render(*m).push('\n')));
    }
    match existing {
        Some(old_bytes) => {
            bytes.extend_from_slice(old_bytes.as_slice());
            proof {
                assert(bytes@ =~= spec_compose(*m, Some(old_bytes@)));
            }
        },
        None => {
            proof {
                assert(bytes@ =~= spec_compose(*m, None));
            }
        },
    }
    bytes
}

/// Merge preservation: committing onto a file that already has content
/// yields exactly the bytes of a fresh commit followed by the previous
/// bytes — the previous content is never altered or dropped, only prefixed.
pub proof fn lemma_merge_preserves_existing(m: PostModel, previous: Seq<u8>)
    ensures
        spec_compose(m, Some(previous)) == spec_compose(m, None) + previous,
        spec_compose(m, Some(previous)).skip(spec_compose(m, None).len() as int) == previous,
{
    assert(spec_compose(m, Some(previous)) =~= spec_compose(m, None) + previous);
    assert(spec_compose(m, Some(previous)).skip(spec_compose(m, None).len() as int) =~= previous);
}

} // verus!
