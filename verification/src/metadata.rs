//! The metadata block parser: a content document starts with a contiguous
//! run of `Key: value` lines, terminated by the first blank line. Keys are
//! matched case-insensitively; the keys `category` and `tags` are the only
//! ones the library understands.

use vstd::prelude::*;
use vstd::string::StrSliceExecFns;
use vstd::string::StringExecFns;

use crate::text::is_blank;
use crate::text::lemma_sep_pos_props;
use crate::text::line_is_blank;
use crate::text::lower;
use crate::text::lower_str;
use crate::text::sep_pos;
use crate::text::spec_trim;
use crate::text::str_eq;
use crate::text::str_views;
use crate::text::trim_str;
use crate::text::find_sep;

verus! {

/// The mapping produced by a sequence of key/value entries, a later
/// duplicate key overwriting an earlier one.
pub open spec fn entries_map(es: Seq<(String, String)>) -> Map<Seq<char>, Seq<char>>
    decreases es.len(),
{
    if es.len() == 0 {
        Map::empty()
    } else {
        entries_map(es.drop_last()).insert(es.last().0@, es.last().1@)
    }
}

proof fn lemma_entries_map_found(es: Seq<(String, String)>, k: Seq<char>, i: int)
    requires
        0 <= i < es.len(),
        es[i].0@ == k,
        forall|j: int| i < j < es.len() ==> es[j].0@ != k,
    ensures
        entries_map(es).contains_key(k),
        entries_map(es)[k] == es[i].1@,
    decreases es.len(),
{
    if i == es.len() - 1 {
    } else {
        assert(es.last().0@ != k);
        assert forall|j: int| i < j < es.drop_last().len() implies es.drop_last()[j].0@ != k by {
            assert(es.drop_last()[j] == es[j]);
        }
        lemma_entries_map_found(es.drop_last(), k, i);
    }
}

proof fn lemma_entries_map_absent(es: Seq<(String, String)>, k: Seq<char>)
    requires
        forall|j: int| 0 <= j < es.len() ==> es[j].0@ != k,
    ensures
        !entries_map(es).contains_key(k),
    decreases es.len(),
{
    if es.len() > 0 {
        assert forall|j: int| 0 <= j < es.drop_last().len() implies es.drop_last()[j].0@ != k by {
            assert(es.drop_last()[j] == es[j]);
        }
        lemma_entries_map_absent(es.drop_last(), k);
    }
}

/// One file's raw metadata block: a mapping from lowercase-normalized key to
/// raw trimmed value.
pub struct RawMetadataBlock {
    entries: Vec<(String, String)>,
}

impl View for RawMetadataBlock {
    type V = Map<Seq<char>, Seq<char>>;

    closed spec fn view(&self) -> Map<Seq<char>, Seq<char>> {
        entries_map(self.entries@)
    }
}

impl RawMetadataBlock {
    pub fn new() -> (r: Self)
        ensures
            r@ == Map::<Seq<char>, Seq<char>>::empty(),
    {
        RawMetadataBlock { entries: Vec::new() }
    }

    /// Record a key/value entry; a later entry for the same key wins.
    pub fn put(&mut self, key: String, value: String)
        ensures
            final(self)@ == old(self)@.insert(key@, value@),
    {
        self.entries.push((key, value));
        proof {
            assert(self.entries@.drop_last() =~= old(self).entries@);
        }
    }

    /// The stored value for `key`, if any.
    pub fn get_value(&self, key: &str) -> (r: Option<&String>)
        ensures
            match r {
                Some(v) => self@.contains_key(key@) && v@ == self@[key@],
                None => !self@.contains_key(key@),
            },
    {
        let n = self.entries.len();
        let mut e: usize = n;
        while e > 0
            invariant
                e <= n,
                n == self.entries@.len(),
                forall|j: int| e <= j < n ==> self.entries@[j].0@ != key@,
            decreases e,
        {
            if str_eq(self.entries[e - 1].0.as_str(), key) {
                proof {
                    lemma_entries_map_found(self.entries@, key@, e - 1);
                }
                return Some(&self.entries[e - 1].1);
            }
            e -= 1;
        }
        proof {
            lemma_entries_map_absent(self.entries@, key@);
        }
        None
    }
}

/// The leading run of non-blank lines at the top of a file.
pub open spec fn header_lines(lines: Seq<Seq<char>>) -> Seq<Seq<char>>
    decreases lines.len(),
{
    if lines.len() == 0 || is_blank(lines[0]) {
        Seq::empty()
    } else {
        seq![lines[0]] + header_lines(lines.drop_first())
    }
}

pub proof fn lemma_header_lines_prefix(lines: Seq<Seq<char>>, i: int)
    requires
        0 <= i <= lines.len(),
        forall|j: int| 0 <= j < i ==> !is_blank(#[trigger] lines[j]),
        i < lines.len() ==> is_blank(lines[i]),
    ensures
        header_lines(lines) == lines.take(i),
    decreases i,
{
    if i == 0 {
        assert(lines.take(0) =~= Seq::<Seq<char>>::empty());
    } else {
        assert(!is_blank(lines[0]));
        assert forall|j: int| 0 <= j < i - 1 implies !is_blank(#[trigger] lines.drop_first()[j]) by {
            assert(lines.drop_first()[j] == lines[j + 1]);
        }
        if i - 1 < lines.drop_first().len() {
            assert(lines.drop_first()[i - 1] == lines[i]);
        }
        lemma_header_lines_prefix(lines.drop_first(), i - 1);
        assert(seq![lines[0]] + lines.drop_first().take(i - 1) =~= lines.take(i));
    }
}

/// The key/value entry of one header line: the line is split at its first
/// `:`; the key is trimmed and lower-cased, the value trimmed. A line
/// without `:` yields no entry.
pub open spec fn line_entry(l: Seq<char>) -> Option<(Seq<char>, Seq<char>)> {
    let p = sep_pos(l, ':');
    if p < l.len() {
        Some((lower(spec_trim(l.take(p))), spec_trim(l.skip(p + 1))))
    } else {
        None
    }
}

/// The mapping that a sequence of header lines produces.
pub open spec fn lines_map(lines: Seq<Seq<char>>) -> Map<Seq<char>, Seq<char>>
    decreases lines.len(),
{
    if lines.len() == 0 {
        Map::empty()
    } else {
        match line_entry(lines.last()) {
            Some(kv) => lines_map(lines.drop_last()).insert(kv.0, kv.1),
            None => lines_map(lines.drop_last()),
        }
    }
}

/// The raw metadata block of a whole file, given as lines.
pub open spec fn block_map(lines: Seq<Seq<char>>) -> Map<Seq<char>, Seq<char>> {
    lines_map(header_lines(lines))
}

/// Parse the leading metadata block out of a file's lines.
pub fn read_raw_meta(lines: &Vec<String>) -> (r: RawMetadataBlock)
    ensures
        r@ == block_map(str_views(lines@)),
{
    let ghost sv = str_views(lines@);
    let mut block = RawMetadataBlock::new();
    let mut i: usize = 0;
    while i < lines.len()
        invariant
            sv == str_views(lines@),
            i <= lines@.len(),
            sv.len() == lines@.len(),
            forall|j: int| 0 <= j < i ==> !is_blank(#[trigger] sv[j]),
            block@ == lines_map(sv.take(i as int)),
        decreases lines@.len() - i,
    {
        let line: &String = &lines[i];
        proof {
            assert(sv[i as int] == line@);
        }
        if line_is_blank(line.as_str()) {
            proof {
                lemma_header_lines_prefix(sv, i as int);
            }
            return block;
        }
        let n = line.as_str().unicode_len();
        let p = find_sep(line.as_str(), ':');
        if p < n {
            let key_part = line.as_str().substring_char(0, p);
            let value_part = line.as_str().substring_char(p + 1, n);
            let key = lower_str(trim_str(key_part));
            let value = trim_str(value_part);
            proof {
                assert(key_part@ =~= line@.take(p as int));
                assert(value_part@ =~= line@.skip(p + 1));
            }
            block.put(key, String::from_str(value));
            proof {
                assert(line_entry(sv[i as int]) == Some(
                    (lower(spec_trim(line@.take(p as int))), spec_trim(line@.skip(p + 1))),
                ));
            }
        }
        proof {
            assert(sv.take(i + 1).drop_last() =~= sv.take(i as int));
            assert(sv.take(i + 1).last() == sv[i as int]);
        }
        i += 1;
    }
    proof {
        lemma_header_lines_prefix(sv, lines@.len() as int);
        assert(sv.take(lines@.len() as int) =~= sv);
    }
    block
}

/// Pieces of `s` split on `,`; splitting never yields zero pieces.
pub open spec fn split_commas(s: Seq<char>) -> Seq<Seq<char>>
    decreases s.len(),
{
    let p = sep_pos(s, ',');
    if 0 <= p && p < s.len() {
        seq![s.take(p)] + split_commas(s.skip(p + 1))
    } else {
        seq![s]
    }
}

pub fn split_commas_str(s: &str) -> (r: Vec<String>)
    ensures
        str_views(r@) == split_commas(s@),
    decreases s@.len(),
{
    proof {
        lemma_sep_pos_props(s@, ',');
    }
    let n = s.unicode_len();
    let p = find_sep(s, ',');
    if p < n {
        let head = s.substring_char(0, p);
        let tail = s.substring_char(p + 1, n);
        proof {
            assert(tail@ =~= s@.skip(p + 1));
        }
        let mut r: Vec<String> = Vec::new();
        r.push(String::from_str(head));
        let mut rest = split_commas_str(tail);
        r.append(&mut rest);
        proof {
            assert(str_views(r@) =~= split_commas(s@));
        }
        r
    } else {
        let mut r: Vec<String> = Vec::new();
        r.push(String::from_str(s));
        proof {
            assert(str_views(r@) =~= split_commas(s@));
        }
        r
    }
}

/// Every piece of `s`, trimmed.
pub open spec fn trim_all(s: Seq<Seq<char>>) -> Seq<Seq<char>>
    decreases s.len(),
{
    if s.len() == 0 {
        s
    } else {
        trim_all(s.drop_last()).push(spec_trim(s.last()))
    }
}

pub proof fn lemma_trim_all(s: Seq<Seq<char>>)
    ensures
        trim_all(s).len() == s.len(),
        forall|i: int| 0 <= i < s.len() ==> trim_all(s)[i] == spec_trim(#[trigger] s[i]),
    decreases s.len(),
{
    if s.len() > 0 {
        lemma_trim_all(s.drop_last());
        assert forall|i: int| 0 <= i < s.len() implies trim_all(s)[i] == spec_trim(#[trigger] s[i]) by {
            if i < s.len() - 1 {
                assert(s.drop_last()[i] == s[i]);
                assert(trim_all(s)[i] == trim_all(s.drop_last())[i]);
            }
        }
    }
}

/// The non-empty pieces of `s`, in order.
pub open spec fn nonempty_only(s: Seq<Seq<char>>) -> Seq<Seq<char>>
    decreases s.len(),
{
    if s.len() == 0 {
        s
    } else if s.last().len() > 0 {
        nonempty_only(s.drop_last()).push(s.last())
    } else {
        nonempty_only(s.drop_last())
    }
}

pub proof fn lemma_nonempty_only_pred(s: Seq<Seq<char>>, k: int)
    requires
        0 <= k < nonempty_only(s).len(),
    ensures
        nonempty_only(s)[k].len() > 0,
    decreases s.len(),
{
    if s.len() > 0 {
        if s.last().len() > 0 && k == nonempty_only(s).len() - 1 {
        } else {
            lemma_nonempty_only_pred(s.drop_last(), k);
        }
    }
}

/// The tag list derived from the raw value of the `tags` key: pieces split
/// on `,`, each trimmed, empty pieces discarded, order and duplicates kept.
pub open spec fn spec_tags_of(v: Seq<char>) -> Seq<Seq<char>> {
    nonempty_only(trim_all(split_commas(v)))
}

fn tags_from_value(v: &str) -> (r: Vec<String>)
    ensures
        str_views(r@) == spec_tags_of(v@),
{
    let pieces = split_commas_str(v);
    let ghost trimmed = trim_all(split_commas(v@));
    proof {
        lemma_trim_all(split_commas(v@));
    }
    let mut out: Vec<String> = Vec::new();
    let mut i: usize = 0;
    while i < pieces.len()
        invariant
            i <= pieces@.len(),
            str_views(pieces@) == split_commas(v@),
            trimmed == trim_all(split_commas(v@)),
            trimmed.len() == pieces@.len(),
            forall|k: int|
                0 <= k < pieces@.len() ==> trimmed[k] == spec_trim(#[trigger] split_commas(v@)[k]),
            str_views(out@) == nonempty_only(trimmed.take(i as int)),
        decreases pieces@.len() - i,
    {
        let t = trim_str(pieces[i].as_str());
        proof {
            assert(str_views(pieces@)[i as int] == pieces@[i as int]@);
            assert(t@ == trimmed[i as int]);
            assert(trimmed.take(i + 1).drop_last() =~= trimmed.take(i as int));
            assert(trimmed.take(i + 1).last() == trimmed[i as int]);
        }
        if t.unicode_len() > 0 {
            out.push(String::from_str(t));
            proof {
                assert(str_views(out@) =~= nonempty_only(trimmed.take(i as int)).push(
                    trimmed[i as int],
                ));
            }
        }
        i += 1;
    }
    proof {
        assert(trimmed.take(trimmed.len() as int) =~= trimmed);
    }
    out
}

/// Metadata extracted from one content document: the category (empty when
/// absent) and the tag list in the order written, duplicates preserved.
#[derive(Debug)]
pub struct PelicanFileMetadata {
    pub category: String,
    pub tags: Vec<String>,
}

/// The category a file's lines yield: the trimmed value of the `category`
/// key, empty when the key is absent.
pub open spec fn spec_category(lines: Seq<Seq<char>>) -> Seq<char> {
    let m = block_map(lines);
    if m.contains_key("category"@) {
        m["category"@]
    } else {
        Seq::empty()
    }
}

/// The tag list a file's lines yield, empty when the `tags` key is absent.
pub open spec fn spec_tags(lines: Seq<Seq<char>>) -> Seq<Seq<char>> {
    let m = block_map(lines);
    if m.contains_key("tags"@) {
        spec_tags_of(m["tags"@])
    } else {
        Seq::empty()
    }
}

/// The whole parse of one file: `None` when the derived category is empty
/// and the derived tag list is empty too, so that a file without
/// recognizable metadata never pollutes the catalog.
pub open spec fn spec_read_metadata(lines: Seq<Seq<char>>) -> Option<(Seq<char>, Seq<Seq<char>>)> {
    if spec_category(lines).len() == 0 && spec_tags(lines).len() == 0 {
        None
    } else {
        Some((spec_category(lines), spec_tags(lines)))
    }
}

/// A blank first line means the file has no metadata block at all, so the
/// parse yields nothing.
pub proof fn lemma_blank_first_line_no_metadata(lines: Seq<Seq<char>>)
    requires
        lines.len() > 0,
        is_blank(lines[0]),
    ensures
        spec_read_metadata(lines) is None,
{
    assert(header_lines(lines) =~= Seq::<Seq<char>>::empty());
    assert(!block_map(lines).contains_key("category"@));
    assert(!block_map(lines).contains_key("tags"@));
}

/// Holds of every value a metadata block stores: values are trimmed, so a
/// non-empty value never starts with whitespace.
pub open spec fn trimmed_value_ok(v: Seq<char>) -> bool {
    v.len() > 0 ==> !crate::text::is_space(v[0])
}

pub proof fn lemma_lines_map_values(lines: Seq<Seq<char>>, k: Seq<char>)
    requires
        lines_map(lines).contains_key(k),
    ensures
        trimmed_value_ok(lines_map(lines)[k]),
    decreases lines.len(),
{
    if lines.len() == 0 {
    } else {
        match line_entry(lines.last()) {
            Some(kv) => {
                if kv.0 == k {
                    crate::text::lemma_trim_no_edge_space(
                        lines.last().skip(sep_pos(lines.last(), ':') + 1),
                    );
                } else {
                    lemma_lines_map_values(lines.drop_last(), k);
                }
            },
            None => {
                lemma_lines_map_values(lines.drop_last(), k);
            },
        }
    }
}

pub struct MarkdownFileParser {}

impl MarkdownFileParser {
    /// Parse the metadata block of one content document, given as its lines.
    pub fn read_metadata(lines: &Vec<String>) -> (r: Option<PelicanFileMetadata>)
        ensures
            match r {
                None => spec_read_metadata(str_views(lines@)) is None,
                Some(m) => spec_read_metadata(str_views(lines@)) == Some(
                    (m.category@, str_views(m.tags@)),
                ),
            },
    {
        let block = read_raw_meta(lines);
        let category: String = match block.get_value("category") {
            Some(v) => v.clone(),
            None => String::new(),
        };
        let tags: Vec<String> = match block.get_value("tags") {
            Some(v) => tags_from_value(v.as_str()),
            None => Vec::new(),
        };
        proof {
            assert(str_views(Seq::<String>::empty()) =~= Seq::<Seq<char>>::empty());
        }
        if category.as_str().is_empty() && tags.len() == 0 {
            None
        } else {
            Some(PelicanFileMetadata { category, tags })
        }
    }
}

} // verus!
