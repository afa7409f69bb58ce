//! Classification of directory entries by file name: only content documents
//! (recognized by extension, with a pure-ASCII name) are eligible for
//! metadata extraction.

use vstd::prelude::*;
use vstd::string::StrSliceExecFns;

verus! {

#[allow(non_camel_case_types)]
#[derive(Debug, Clone, Copy, PartialEq, Eq, Structural)]
pub enum FileType {
    MARKDOWN,
    UNKNOWN,
}

/// Index of the last `.` in `s`, or `-1` when `.` does not occur.
pub open spec fn last_dot_pos(s: Seq<char>) -> int
    decreases s.len(),
{
    if s.len() == 0 {
        -1
    } else if s.last() == '.' {
        s.len() - 1
    } else {
        last_dot_pos(s.drop_last())
    }
}

pub proof fn lemma_last_dot_at(s: Seq<char>, i: int)
    requires
        -1 <= i < s.len(),
        i >= 0 ==> s[i] == '.',
        forall|j: int| i < j < s.len() ==> s[j] != '.',
    ensures
        last_dot_pos(s) == i,
    decreases s.len(),
{
    if s.len() == 0 {
    } else if s.last() == '.' {
        assert(i == s.len() - 1);
    } else {
        assert(i < s.len() - 1);
        assert forall|j: int| i < j < s.drop_last().len() implies s.drop_last()[j] != '.' by {
            assert(s.drop_last()[j] == s[j]);
        }
        if i >= 0 {
            assert(s.drop_last()[i] == s[i]);
        }
        lemma_last_dot_at(s.drop_last(), i);
    }
}

fn last_dot_index(s: &str) -> (r: Option<usize>)
    ensures
        match r {
            Some(i) => i as int == last_dot_pos(s@) && i < s@.len(),
            None => last_dot_pos(s@) == -1,
        },
{
    let n = s.unicode_len();
    let mut e: usize = n;
    while e > 0
        invariant
            e <= n,
            n == s@.len(),
            forall|j: int| e <= j < n ==> s@[j] != '.',
        decreases e,
    {
        if s.get_char(e - 1) == '.' {
            proof {
                lemma_last_dot_at(s@, e - 1);
            }
            return Some(e - 1);
        }
        e -= 1;
    }
    proof {
        lemma_last_dot_at(s@, -1);
    }
    None
}

/// The extension of a file name: the part after the last `.`, provided that
/// dot is not the name's first character; empty otherwise. A name such as
/// `.gitignore` therefore has no extension, while `archive.tar.gz` has the
/// extension `gz`.
pub open spec fn spec_extension(name: Seq<char>) -> Seq<char> {
    if last_dot_pos(name) >= 1 {
        name.skip(last_dot_pos(name) + 1)
    } else {
        Seq::empty()
    }
}

pub fn extension_of<'a>(name: &'a str) -> (r: &'a str)
    ensures
        r@ == spec_extension(name@),
{
    let ld = last_dot_index(name);
    if let Some(i) = ld {
        if i >= 1 {
            let n = name.unicode_len();
            let r = name.substring_char(i + 1, n);
            proof {
                assert(r@ =~= name@.skip(last_dot_pos(name@) + 1));
            }
            return r;
        }
    }
    let r = name.substring_char(0, 0);
    proof {
        assert(r@ =~= Seq::<char>::empty());
    }
    r
}

/// The fixed allow-list of content-document extensions, matched case
/// sensitively.
pub open spec fn is_md_extension(e: Seq<char>) -> bool {
    e == "md"@ || e == "markdown"@ || e == "mkd"@ || e == "mdown"@
}

/// A file is a content document only if its name is pure ASCII (a deliberate
/// conservative policy to avoid encoding ambiguity) and its extension is on
/// the allow-list.
pub open spec fn is_content_name(name: Seq<char>) -> bool {
    vstd::utf8::is_ascii_chars(name) && is_md_extension(spec_extension(name))
}

impl FileType {
    /// Classify a directory entry by its file name alone; no I/O.
    pub fn from_name(name: &str) -> (t: FileType)
        ensures
            (t == FileType::MARKDOWN) <==> is_content_name(name@),
    {
        if !name.is_ascii() {
            return FileType::UNKNOWN;
        }
        let ext = extension_of(name);
        if crate::text::str_eq(ext, "md") || crate::text::str_eq(ext, "markdown")
            || crate::text::str_eq(ext, "mkd") || crate::text::str_eq(ext, "mdown") {
            FileType::MARKDOWN
        } else {
            FileType::UNKNOWN
        }
    }
}

} // verus!
