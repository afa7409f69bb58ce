//! The data model: the catalog of categories and tags discovered in the
//! content tree (`DataStore`), and the post being authored (`PostModel`).

use vstd::prelude::*;
use vstd::string::StrSliceExecFns;
use vstd::string::StringExecFns;

use crate::classify::is_content_name;
use crate::classify::FileType;
use crate::external::now_parts;
use crate::external::slug_of;
use crate::external::slugify;
use crate::metadata::spec_read_metadata;
use crate::metadata::MarkdownFileParser;
use crate::metadata::PelicanFileMetadata;
use crate::text::four_digits;
use crate::text::push_four_digits;
use crate::text::push_two_digits;
use crate::text::sort_le;
use crate::text::sort_strings;
use crate::text::copy_strings;
use crate::text::str_eq;
use crate::text::str_views;
use crate::text::two_digits;

verus! {

/// A local-time timestamp, held as plain calendar and clock fields.
#[derive(Debug, Clone, Copy, PartialEq, Eq, Structural)]
pub struct Timestamp {
    pub year: u32,
    pub month: u32,
    pub day: u32,
    pub hour: u32,
    pub minute: u32,
    pub second: u32,
}

impl Timestamp {
    /// Field ranges: the year fits in four digits, month and day start at 1.
    pub open spec fn wf(&self) -> bool {
        &&& self.year <= 9999
        &&& 1 <= self.month <= 12
        &&& 1 <= self.day <= 31
        &&& self.hour <= 23
        &&& self.minute <= 59
        &&& self.second <= 59
    }

    /// The timestamp formatted as `YYYY-MM-DD HH:MM:SS`.
    pub open spec fn spec_format(&self) -> Seq<char> {
        four_digits(self.year as int) + seq!['-'] + two_digits(self.month as int) + seq!['-']
            + two_digits(self.day as int) + seq![' '] + two_digits(self.hour as int) + seq![':']
            + two_digits(self.minute as int) + seq![':'] + two_digits(self.second as int)
    }

    pub fn format(&self) -> (r: String)
        requires
            self.wf(),
        ensures
            r@ == self.spec_format(),
    {
        let mut out = String::new();
        push_four_digits(&mut out, self.year);
        out.push('-');
        push_two_digits(&mut out, self.month);
        out.push('-');
        push_two_digits(&mut out, self.day);
        out.push(' ');
        push_two_digits(&mut out, self.hour);
        out.push(':');
        push_two_digits(&mut out, self.minute);
        out.push(':');
        push_two_digits(&mut out, self.second);
        proof {
            assert(out@ =~= self.spec_format());
        }
        out
    }

    /// The same instant moved to another calendar date, the time of day kept.
    pub open spec fn replace_date_spec(&self, year: u32, month: u32, day: u32) -> Timestamp {
        Timestamp {
            year,
            month,
            day,
            hour: self.hour,
            minute: self.minute,
            second: self.second,
        }
    }

    pub fn replace_date(&self, year: u32, month: u32, day: u32) -> (r: Timestamp)
        requires
            year <= 9999,
            1 <= month <= 12,
            1 <= day <= 31,
        ensures
            r == self.replace_date_spec(year, month, day),
            self.wf() ==> r.wf(),
    {
        Timestamp { year, month, day, hour: self.hour, minute: self.minute, second: self.second }
    }

    /// The current local time; a year outside the four-digit range is
    /// clamped so that the result is always well formed.
    pub fn now() -> (r: Timestamp)
        ensures
            r.wf(),
    {
        let (y, mo, d, h, mi, s) = now_parts();
        let year: u32 = if y < 0 {
            0
        } else if y > 9999 {
            9999
        } else {
            y as u32
        };
        Timestamp { year, month: mo, day: d, hour: h, minute: mi, second: s }
    }
}

/// The post being authored: pure data plus derived accessors. Mutated field
/// by field by the presentation layer and consumed once by the writer.
#[derive(Debug)]
pub struct PostModel {
    pub title: Option<String>,
    pub slug: Option<String>,
    pub created_at: Timestamp,
    pub updated_at: Timestamp,
    pub category: Option<String>,
    pub tags: Vec<String>,
    /// The content-tree root this model writes under; fixed at construction
    /// and used only to derive the default destination path.
    pub root_dir: String,
}

/// The default destination of a post: `<root>/<four-digit year>/<slug>.md`,
/// with a fixed placeholder file name when the slug is unset.
pub open spec fn spec_file_path(m: PostModel) -> Seq<char> {
    m.root_dir@ + seq!['/'] + four_digits(m.created_at.year as int) + seq!['/'] + (
    if m.slug is Some {
        m.slug->0@ + ".md"@
    } else {
        "new-file.md"@
    })
}

impl PostModel {
    /// A fresh model: nothing chosen yet, both timestamps "now".
    pub fn new(root_dir: String) -> (m: PostModel)
        ensures
            m.title is None,
            m.slug is None,
            m.category is None,
            m.tags@.len() == 0,
            m.created_at.wf(),
            m.updated_at == m.created_at,
            m.root_dir@ == root_dir@,
    {
        let right_now = Timestamp::now();
        PostModel {
            title: None,
            slug: None,
            created_at: right_now,
            updated_at: right_now,
            category: None,
            tags: Vec::new(),
            root_dir,
        }
    }

    /// The slug derived from the title by the external slugify transform,
    /// or `None` when the title is unset.
    pub fn generated_slug(&self) -> (r: Option<String>)
        ensures
            match r {
                Some(s) => self.title is Some && s@ == slug_of(self.title->0@),
                None => self.title is None,
            },
    {
        match &self.title {
            Some(t) => Some(slugify(t.as_str())),
            None => None,
        }
    }

    /// The default destination path. Pure: no disk access, no existence
    /// check.
    pub fn file_path(&self) -> (r: String)
        requires
            self.created_at.wf(),
        ensures
            r@ == spec_file_path(*self),
    {
        let mut out = self.root_dir.clone();
        out.push('/');
        push_four_digits(&mut out, self.created_at.year);
        out.push('/');
        match &self.slug {
            Some(s) => {
                out.append(s.as_str());
                out.append(".md");
            },
            None => {
                out.append("new-file.md");
            },
        }
        proof {
            assert(out@ =~= spec_file_path(*self));
        }
        out
    }

    pub fn set_title(&mut self, new_title: String)
        ensures
            final(self).title == Some(new_title),
            final(self).slug == old(self).slug,
            final(self).created_at == old(self).created_at,
            final(self).updated_at == old(self).updated_at,
            final(self).category == old(self).category,
            final(self).tags == old(self).tags,
            final(self).root_dir == old(self).root_dir,
    {
        self.title = Some(new_title);
    }

    /// An empty replacement slug means: derive the slug from the title.
    pub fn set_slug(&mut self, new_slug: String)
        requires
            new_slug@.len() == 0 ==> old(self).title is Some,
        ensures
            final(self).slug is Some,
            new_slug@.len() > 0 ==> final(self).slug->0 == new_slug,
            new_slug@.len() == 0 ==> final(self).slug->0@ == slug_of(old(self).title->0@),
            final(self).title == old(self).title,
            final(self).created_at == old(self).created_at,
            final(self).updated_at == old(self).updated_at,
            final(self).category == old(self).category,
            final(self).tags == old(self).tags,
            final(self).root_dir == old(self).root_dir,
    {
        if new_slug.as_str().is_empty() {
            let derived = match self.generated_slug() {
                Some(s) => s,
                None => new_slug,
            };
            self.slug = Some(derived);
        } else {
            self.slug = Some(new_slug);
        }
    }

    /// Override the creation date; the time-of-day portion is preserved.
    pub fn set_created_at(&mut self, year: u32, month: u32, day: u32)
        requires
            year <= 9999,
            1 <= month <= 12,
            1 <= day <= 31,
        ensures
            final(self).created_at == old(self).created_at.replace_date_spec(year, month, day),
            old(self).created_at.wf() ==> final(self).created_at.wf(),
            final(self).title == old(self).title,
            final(self).slug == old(self).slug,
            final(self).updated_at == old(self).updated_at,
            final(self).category == old(self).category,
            final(self).tags == old(self).tags,
            final(self).root_dir == old(self).root_dir,
    {
        self.created_at = self.created_at.replace_date(year, month, day);
    }

    pub fn set_category(&mut self, new_category: String)
        ensures
            final(self).category == Some(new_category),
            final(self).title == old(self).title,
            final(self).slug == old(self).slug,
            final(self).created_at == old(self).created_at,
            final(self).updated_at == old(self).updated_at,
            final(self).tags == old(self).tags,
            final(self).root_dir == old(self).root_dir,
    {
        self.category = Some(new_category);
    }

    pub fn set_tags(&mut self, new_tags: Vec<String>)
        ensures
            final(self).tags == new_tags,
            final(self).title == old(self).title,
            final(self).slug == old(self).slug,
            final(self).created_at == old(self).created_at,
            final(self).updated_at == old(self).updated_at,
            final(self).category == old(self).category,
            final(self).root_dir == old(self).root_dir,
    {
        self.tags = new_tags;
    }
}

/// What the scan hands the library for one directory entry: the entry's
/// file name, and its leading lines, or `None` when the entry could not be
/// read.
#[derive(Debug)]
pub struct ScannedFile {
    pub name: String,
    pub lines: Option<Vec<String>>,
}

/// The metadata one scanned entry contributes: only a readable file that
/// classifies as a content document and parses to a usable block counts.
pub open spec fn entry_meta(e: ScannedFile) -> Option<(Seq<char>, Seq<Seq<char>>)> {
    if e.lines is Some && is_content_name(e.name@) {
        spec_read_metadata(str_views(e.lines->0@))
    } else {
        None
    }
}

/// The category set after folding in one entry: a non-empty category is
/// added, anything else leaves the set unchanged.
pub open spec fn add_entry_cats(s: Set<Seq<char>>, e: ScannedFile) -> Set<Seq<char>> {
    if entry_meta(e) is Some && (entry_meta(e)->0).0.len() > 0 {
        s.insert((entry_meta(e)->0).0)
    } else {
        s
    }
}

/// The tag set after folding in one entry.
pub open spec fn add_entry_tags(s: Set<Seq<char>>, e: ScannedFile) -> Set<Seq<char>> {
    if entry_meta(e) is Some {
        s + (entry_meta(e)->0).1.to_set()
    } else {
        s
    }
}

/// The category set after folding in a whole sequence of scanned entries.
pub open spec fn scan_cats(init: Set<Seq<char>>, entries: Seq<ScannedFile>) -> Set<Seq<char>>
    decreases entries.len(),
{
    if entries.len() == 0 {
        init
    } else {
        add_entry_cats(scan_cats(init, entries.drop_last()), entries.last())
    }
}

/// The tag set after folding in a whole sequence of scanned entries.
pub open spec fn scan_tags(init: Set<Seq<char>>, entries: Seq<ScannedFile>) -> Set<Seq<char>>
    decreases entries.len(),
{
    if entries.len() == 0 {
        init
    } else {
        add_entry_tags(scan_tags(init, entries.drop_last()), entries.last())
    }
}

/// A scan over entries none of which contributes metadata leaves the
/// catalog exactly as it was.
pub proof fn lemma_no_metadata_no_catalog(
    init_cats: Set<Seq<char>>,
    init_tags: Set<Seq<char>>,
    entries: Seq<ScannedFile>,
)
    requires
        forall|i: int| 0 <= i < entries.len() ==> entry_meta(#[trigger] entries[i]) is None,
    ensures
        scan_cats(init_cats, entries) == init_cats,
        scan_tags(init_tags, entries) == init_tags,
    decreases entries.len(),
{
    if entries.len() > 0 {
        assert forall|i: int|
            0 <= i < entries.drop_last().len() implies entry_meta(
            #[trigger] entries.drop_last()[i],
        ) is None by {
            assert(entries.drop_last()[i] == entries[i]);
        }
        lemma_no_metadata_no_catalog(init_cats, init_tags, entries.drop_last());
        assert(entry_meta(entries[entries.len() - 1]) is None);
    }
}

/// A directory with zero classifiable files yields an empty catalog — never
/// an error.
pub proof fn lemma_no_classifiable_files_empty_catalog(entries: Seq<ScannedFile>)
    requires
        forall|i: int|
            0 <= i < entries.len() ==> !is_content_name((#[trigger] entries[i]).name@),
    ensures
        scan_cats(Set::<Seq<char>>::empty(), entries) == Set::<Seq<char>>::empty(),
        scan_tags(Set::<Seq<char>>::empty(), entries) == Set::<Seq<char>>::empty(),
{
    assert forall|i: int|
        0 <= i < entries.len() implies entry_meta(#[trigger] entries[i]) is None by {
        assert(!is_content_name(entries[i].name@));
    }
    lemma_no_metadata_no_catalog(Set::<Seq<char>>::empty(), Set::<Seq<char>>::empty(), entries);
}

/// The scan never inserts an empty or whitespace-only category: whatever
/// the category set gains over its initial contents has a non-whitespace
/// character, at its very front.
pub proof fn lemma_no_blank_categories(
    init: Set<Seq<char>>,
    entries: Seq<ScannedFile>,
    s: Seq<char>,
)
    requires
        scan_cats(init, entries).contains(s),
        !init.contains(s),
    ensures
        s.len() > 0,
        !crate::text::is_blank(s),
    decreases entries.len(),
{
    if entries.len() > 0 {
        let prev = scan_cats(init, entries.drop_last());
        if prev.contains(s) {
            lemma_no_blank_categories(init, entries.drop_last(), s);
        } else {
            let e = entries.last();
            assert(entry_meta(e) is Some && s == (entry_meta(e)->0).0 && s.len() > 0);
            let lines = str_views(e.lines->0@);
            assert(s == crate::metadata::spec_category(lines));
            let bm = crate::metadata::block_map(lines);
            assert(bm.contains_key("category"@));
            crate::metadata::lemma_lines_map_values(
                crate::metadata::header_lines(lines),
                "category"@,
            );
            assert(!crate::text::is_space(s[0]));
        }
    }
}

/// No two elements have the same view.
pub open spec fn unique_views(s: Seq<String>) -> bool {
    forall|i: int, j: int| 0 <= i < j < s.len() ==> (#[trigger] s[i]@) != (#[trigger] s[j]@)
}

/// Every element is a non-empty string.
pub open spec fn all_nonempty(s: Seq<String>) -> bool {
    forall|i: int| 0 <= i < s.len() ==> (#[trigger] s[i]@).len() > 0
}

pub proof fn lemma_to_set_push<A>(s: Seq<A>, x: A)
    ensures
        s.push(x).to_set() == s.to_set().insert(x),
{
    assert forall|y: A| s.push(x).to_set().contains(y) implies s.to_set().insert(x).contains(
        y,
    ) by {
        let i = choose|i: int| 0 <= i < s.push(x).len() && s.push(x)[i] == y;
        if i < s.len() {
            assert(s[i] == y);
            assert(s.contains(y));
        }
    }
    assert forall|y: A| s.to_set().insert(x).contains(y) implies s.push(x).to_set().contains(
        y,
    ) by {
        if s.to_set().contains(y) {
            let i = choose|i: int| 0 <= i < s.len() && s[i] == y;
            assert(s.push(x)[i] == y);
        } else {
            assert(s.push(x)[s.len() as int] == x);
        }
        assert(s.push(x).contains(y));
    }
    assert(s.push(x).to_set() =~= s.to_set().insert(x));
}

/// Insert a string into a duplicate-free vector, keeping it duplicate free;
/// the set of views grows by exactly the new view.
fn insert_unique(v: &mut Vec<String>, x: String)
    requires
        unique_views(old(v)@),
        all_nonempty(old(v)@),
        x@.len() > 0,
    ensures
        unique_views(final(v)@),
        all_nonempty(final(v)@),
        str_views(final(v)@).to_set() == str_views(old(v)@).to_set().insert(x@),
{
    let n = v.len();
    let mut i: usize = 0;
    while i < n
        invariant
            i <= n,
            n == v@.len(),
            *v == *old(v),
            unique_views(v@),
            all_nonempty(v@),
            x@.len() > 0,
            forall|j: int| 0 <= j < i ==> (#[trigger] v@[j]@) != x@,
        decreases n - i,
    {
        if str_eq(v[i].as_str(), x.as_str()) {
            proof {
                assert(str_views(v@)[i as int] == x@);
                assert(str_views(v@).contains(x@));
                assert(str_views(v@).to_set().insert(x@) =~= str_views(v@).to_set());
            }
            return ;
        }
        i += 1;
    }
    let ghost oldv = v@;
    v.push(x);
    proof {
        assert(str_views(v@) =~= str_views(oldv).push(x@));
        lemma_to_set_push(str_views(oldv), x@);
        assert forall|a: int, b: int| 0 <= a < b < v@.len() implies (#[trigger] v@[a]@) != (
        #[trigger] v@[b]@) by {
            if b == v@.len() - 1 {
                assert(v@[a] == oldv[a]);
            } else {
                assert(v@[a] == oldv[a]);
                assert(v@[b] == oldv[b]);
            }
        }
        assert forall|a: int| 0 <= a < v@.len() implies (#[trigger] v@[a]@).len() > 0 by {
            if a < v@.len() - 1 {
                assert(v@[a] == oldv[a]);
            }
        }
    }
}

/// The catalog of categories and tags discovered across a content tree.
/// Both vectors are kept free of duplicates and of empty strings; their
/// order carries no meaning.
#[derive(Debug)]
pub struct DataStore {
    pub categories: Vec<String>,
    pub tags: Vec<String>,
}

impl DataStore {
    pub open spec fn wf(&self) -> bool {
        &&& unique_views(self.categories@)
        &&& all_nonempty(self.categories@)
        &&& unique_views(self.tags@)
        &&& all_nonempty(self.tags@)
    }

    /// The categories as a set of character sequences.
    pub open spec fn cat_set(&self) -> Set<Seq<char>> {
        str_views(self.categories@).to_set()
    }

    /// The tags as a set of character sequences.
    pub open spec fn tag_set(&self) -> Set<Seq<char>> {
        str_views(self.tags@).to_set()
    }

    pub fn new() -> (r: DataStore)
        ensures
            r.wf(),
            r.cat_set() == Set::<Seq<char>>::empty(),
            r.tag_set() == Set::<Seq<char>>::empty(),
            r.categories@.len() == 0,
            r.tags@.len() == 0,
    {
        let r = DataStore { categories: Vec::new(), tags: Vec::new() };
        proof {
            assert(r.cat_set() =~= Set::<Seq<char>>::empty());
            assert(r.tag_set() =~= Set::<Seq<char>>::empty());
        }
        r
    }

    /// Classify one scanned entry and fold its metadata into the catalog.
    fn process_entry(&mut self, e: &ScannedFile)
        requires
            old(self).wf(),
        ensures
            final(self).wf(),
            final(self).cat_set() == add_entry_cats(old(self).cat_set(), *e),
            final(self).tag_set() == add_entry_tags(old(self).tag_set(), *e),
    {
        let ft = FileType::from_name(e.name.as_str());
        let meta: Option<PelicanFileMetadata> = match ft {
            FileType::MARKDOWN => match &e.lines {
                Some(ls) => MarkdownFileParser::read_metadata(ls),
                None => None,
            },
            FileType::UNKNOWN => None,
        };
        match meta {
            Some(m) => {
                proof {
                    assert(entry_meta(*e) == Some((m.category@, str_views(m.tags@))));
                }
                let PelicanFileMetadata { category, tags } = m;
                if !category.as_str().is_empty() {
                    insert_unique(&mut self.categories, category);
                }
                let ghost tvs = str_views(tags@);
                let ghost cats_done = self.cat_set();
                let ghost tags0 = self.tag_set();
                let mut k: usize = 0;
                while k < tags.len()
                    invariant
                        k <= tags@.len(),
                        tvs == str_views(tags@),
                        entry_meta(*e) is Some,
                        (entry_meta(*e)->0).1 == tvs,
                        self.wf(),
                        self.cat_set() == cats_done,
                        self.tag_set() == tags0 + tvs.take(k as int).to_set(),
                    decreases tags@.len() - k,
                {
                    proof {
                        let lines = str_views(e.lines->0@);
                        let bm = crate::metadata::block_map(lines);
                        assert(tvs == crate::metadata::spec_tags(lines));
                        if bm.contains_key("tags"@) {
                            crate::metadata::lemma_nonempty_only_pred(
                                crate::metadata::trim_all(
                                    crate::metadata::split_commas(bm["tags"@]),
                                ),
                                k as int,
                            );
                        }
                        assert(tvs[k as int].len() > 0);
                    }
                    insert_unique(&mut self.tags, tags[k].clone());
                    proof {
                        assert(tvs.take(k + 1) =~= tvs.take(k as int).push(tvs[k as int]));
                        lemma_to_set_push(tvs.take(k as int), tvs[k as int]);
                        assert((tags0 + tvs.take(k as int).to_set()).insert(tvs[k as int]) =~= tags0
                            + tvs.take(k + 1).to_set());
                    }
                    k += 1;
                }
                proof {
                    assert(tvs.take(tags@.len() as int) =~= tvs);
                    assert(tags0 + tvs.to_set() =~= add_entry_tags(old(self).tag_set(), *e));
                }
            },
            None => {
                proof {
                    assert(entry_meta(*e) is None);
                }
            },
        }
    }

    /// Aggregate the catalog from the scanned entries of a directory tree.
    /// The scan as a whole always succeeds: entries that could not be read
    /// contribute nothing, and an empty listing yields an empty catalog.
    pub fn fill_from_dir(&mut self, entries: &Vec<ScannedFile>) -> (r: Result<(), String>)
        requires
            old(self).wf(),
        ensures
            r is Ok,
            final(self).wf(),
            final(self).cat_set() == scan_cats(old(self).cat_set(), entries@),
            final(self).tag_set() == scan_tags(old(self).tag_set(), entries@),
    {
        let n = entries.len();
        let mut i: usize = 0;
        while i < n
            invariant
                i <= n,
                n == entries@.len(),
                self.wf(),
                self.cat_set() == scan_cats(old(self).cat_set(), entries@.take(i as int)),
                self.tag_set() == scan_tags(old(self).tag_set(), entries@.take(i as int)),
            decreases n - i,
        {
            self.process_entry(&entries[i]);
            proof {
                assert(entries@.take(i + 1).drop_last() =~= entries@.take(i as int));
                assert(entries@.take(i + 1).last() == entries@[i as int]);
            }
            i += 1;
        }
        proof {
            assert(entries@.take(n as int) =~= entries@);
        }
        Ok(())
    }

    /// The catalog's categories, sorted for presentation.
    pub fn sorted_categories(&self) -> (r: Vec<String>)
        ensures
            str_views(r@) == sort_le(str_views(self.categories@)),
    {
        sort_strings(copy_strings(&self.categories))
    }

    /// The catalog's tags, sorted for presentation.
    pub fn sorted_tags(&self) -> (r: Vec<String>)
        ensures
            str_views(r@) == sort_le(str_views(self.tags@)),
    {
        sort_strings(copy_strings(&self.tags))
    }
}

} // verus!
