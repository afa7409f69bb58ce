//! Character and string primitives used by the metadata parser and the
//! post renderer: whitespace, ASCII case folding, digit formatting,
//! separator search, lexicographic order, and trimming.

use vstd::prelude::*;
use vstd::string::StrSliceExecFns;
use vstd::string::StringExecFns;
use vstd::multiset::Multiset;

verus! {

/// The characters treated as whitespace when trimming values and detecting
/// blank lines: the Unicode `White_Space` set.
pub open spec fn is_space(c: char) -> bool {
    let u = c as u32;
    ||| u == 0x20
    ||| 0x09 <= u <= 0x0D
    ||| u == 0x85
    ||| u == 0xA0
    ||| u == 0x1680
    ||| 0x2000 <= u <= 0x200A
    ||| u == 0x2028
    ||| u == 0x2029
    ||| u == 0x202F
    ||| u == 0x205F
    ||| u == 0x3000
}

pub fn char_is_space(c: char) -> (r: bool)
    ensures
        r == is_space(c),
{
    let u = c as u32;
    u == 0x20 || (0x09 <= u && u <= 0x0D) || u == 0x85 || u == 0xA0 || u == 0x1680 || (0x2000 <= u
        && u <= 0x200A) || u == 0x2028 || u == 0x2029 || u == 0x202F || u == 0x205F || u == 0x3000
}

/// A line is blank when every character in it is whitespace; in particular
/// the empty line is blank.
pub open spec fn is_blank(s: Seq<char>) -> bool {
    forall|i: int| 0 <= i < s.len() ==> is_space(#[trigger] s[i])
}

pub fn line_is_blank(s: &str) -> (r: bool)
    ensures
        r == is_blank(s@),
{
    let n = s.unicode_len();
    let mut i: usize = 0;
    while i < n
        invariant
            i <= n,
            n == s@.len(),
            forall|j: int| 0 <= j < i ==> is_space(#[trigger] s@[j]),
        decreases n - i,
    {
        if !char_is_space(s.get_char(i)) {
            return false;
        }
        i += 1;
    }
    true
}

/// ASCII lower-casing of a single character; everything outside `A`..`Z`
/// is left unchanged.
pub open spec fn lower_char(c: char) -> char {
    match c {
        'A' => 'a',
        'B' => 'b',
        'C' => 'c',
        'D' => 'd',
        'E' => 'e',
        'F' => 'f',
        'G' => 'g',
        'H' => 'h',
        'I' => 'i',
        'J' => 'j',
        'K' => 'k',
        'L' => 'l',
        'M' => 'm',
        'N' => 'n',
        'O' => 'o',
        'P' => 'p',
        'Q' => 'q',
        'R' => 'r',
        'S' => 's',
        'T' => 't',
        'U' => 'u',
        'V' => 'v',
        'W' => 'w',
        'X' => 'x',
        'Y' => 'y',
        'Z' => 'z',
        _ => c,
    }
}

pub fn to_lower_char(c: char) -> (r: char)
    ensures
        r == lower_char(c),
{
    match c {
        'A' => 'a',
        'B' => 'b',
        'C' => 'c',
        'D' => 'd',
        'E' => 'e',
        'F' => 'f',
        'G' => 'g',
        'H' => 'h',
        'I' => 'i',
        'J' => 'j',
        'K' => 'k',
        'L' => 'l',
        'M' => 'm',
        'N' => 'n',
        'O' => 'o',
        'P' => 'p',
        'Q' => 'q',
        'R' => 'r',
        'S' => 's',
        'T' => 't',
        'U' => 'u',
        'V' => 'v',
        'W' => 'w',
        'X' => 'x',
        'Y' => 'y',
        'Z' => 'z',
        _ => c,
    }
}

/// ASCII lower-casing of a whole sequence of characters.
pub open spec fn lower(s: Seq<char>) -> Seq<char> {
    s.map_values(|c: char| lower_char(c))
}

/// The decimal digit `d` (0 to 9) as a character.
pub open spec fn digit_char(d: int) -> char {
    if d == 0 {
        '0'
    } else if d == 1 {
        '1'
    } else if d == 2 {
        '2'
    } else if d == 3 {
        '3'
    } else if d == 4 {
        '4'
    } else if d == 5 {
        '5'
    } else if d == 6 {
        '6'
    } else if d == 7 {
        '7'
    } else if d == 8 {
        '8'
    } else {
        '9'
    }
}

pub fn digit_to_char(d: u32) -> (r: char)
    requires
        d < 10,
    ensures
        r == digit_char(d as int),
{
    if d == 0 {
        '0'
    } else if d == 1 {
        '1'
    } else if d == 2 {
        '2'
    } else if d == 3 {
        '3'
    } else if d == 4 {
        '4'
    } else if d == 5 {
        '5'
    } else if d == 6 {
        '6'
    } else if d == 7 {
        '7'
    } else if d == 8 {
        '8'
    } else {
        '9'
    }
}

/// `n` rendered as exactly two decimal digits, zero padded.
pub open spec fn two_digits(n: int) -> Seq<char> {
    seq![digit_char(n / 10 % 10), digit_char(n % 10)]
}

/// `n` rendered as exactly four decimal digits, zero padded.
pub open spec fn four_digits(n: int) -> Seq<char> {
    seq![
        digit_char(n / 1000 % 10),
        digit_char(n / 100 % 10),
        digit_char(n / 10 % 10),
        digit_char(n % 10),
    ]
}

/// Index of the first occurrence of `sep` in `s`, or `s.len()` when `sep`
/// does not occur.
pub open spec fn sep_pos(s: Seq<char>, sep: char) -> int
    decreases s.len(),
{
    if s.len() == 0 {
        0
    } else if s[0] == sep {
        0
    } else {
        1 + sep_pos(s.drop_first(), sep)
    }
}

pub proof fn lemma_sep_pos_props(s: Seq<char>, sep: char)
    ensures
        0 <= sep_pos(s, sep) <= s.len(),
        forall|j: int| 0 <= j < sep_pos(s, sep) ==> s[j] != sep,
        sep_pos(s, sep) < s.len() ==> s[sep_pos(s, sep)] == sep,
    decreases s.len(),
{
    if s.len() == 0 {
    } else if s[0] == sep {
    } else {
        lemma_sep_pos_props(s.drop_first(), sep);
        assert forall|j: int| 0 <= j < sep_pos(s, sep) implies s[j] != sep by {
            if j >= 1 {
                assert(s.drop_first()[j - 1] != sep);
                assert(s[j] == s.drop_first()[j - 1]);
            }
        }
        if sep_pos(s, sep) < s.len() {
            assert(s[sep_pos(s, sep)] == s.drop_first()[sep_pos(s.drop_first(), sep)]);
        }
    }
}

pub proof fn lemma_sep_pos_at(s: Seq<char>, sep: char, i: int)
    requires
        0 <= i <= s.len(),
        forall|j: int| 0 <= j < i ==> s[j] != sep,
        i < s.len() ==> s[i] == sep,
    ensures
        sep_pos(s, sep) == i,
    decreases s.len(),
{
    if s.len() == 0 {
    } else if i == 0 {
    } else {
        assert(s[0] != sep);
        assert forall|j: int| 0 <= j < i - 1 implies s.drop_first()[j] != sep by {
            assert(s.drop_first()[j] == s[j + 1]);
        }
        if i - 1 < s.drop_first().len() {
            assert(s.drop_first()[i - 1] == s[i]);
        }
        lemma_sep_pos_at(s.drop_first(), sep, i - 1);
    }
}

pub fn find_sep(s: &str, sep: char) -> (i: usize)
    ensures
        i as int == sep_pos(s@, sep),
        i <= s@.len(),
{
    let n = s.unicode_len();
    let mut i: usize = 0;
    while i < n
        invariant
            i <= n,
            n == s@.len(),
            forall|j: int| 0 <= j < i ==> s@[j] != sep,
        decreases n - i,
    {
        if s.get_char(i) == sep {
            proof {
                lemma_sep_pos_at(s@, sep, i as int);
            }
            return i;
        }
        i += 1;
    }
    proof {
        lemma_sep_pos_at(s@, sep, n as int);
    }
    n
}

/// Lexicographic order on character sequences, by Unicode code point.
pub open spec fn lex_le(a: Seq<char>, b: Seq<char>) -> bool
    decreases a.len(),
{
    if a.len() == 0 {
        true
    } else if b.len() == 0 {
        false
    } else if a[0] == b[0] {
        lex_le(a.drop_first(), b.drop_first())
    } else {
        (a[0] as u32) < (b[0] as u32)
    }
}

pub proof fn lemma_lex_le_skip(a: Seq<char>, b: Seq<char>, i: int)
    requires
        0 <= i <= a.len(),
        i <= b.len(),
        forall|j: int| 0 <= j < i ==> a[j] == b[j],
    ensures
        lex_le(a, b) == lex_le(a.skip(i), b.skip(i)),
    decreases i,
{
    if i == 0 {
        assert(a.skip(0) =~= a);
        assert(b.skip(0) =~= b);
    } else {
        assert(a[0] == b[0]);
        assert forall|j: int| 0 <= j < i - 1 implies a.drop_first()[j] == b.drop_first()[j] by {
            assert(a.drop_first()[j] == a[j + 1]);
            assert(b.drop_first()[j] == b[j + 1]);
        }
        lemma_lex_le_skip(a.drop_first(), b.drop_first(), i - 1);
        assert(a.drop_first().skip(i - 1) =~= a.skip(i));
        assert(b.drop_first().skip(i - 1) =~= b.skip(i));
    }
}

pub fn str_le(a: &str, b: &str) -> (r: bool)
    ensures
        r == lex_le(a@, b@),
{
    let na = a.unicode_len();
    let nb = b.unicode_len();
    let mut i: usize = 0;
    while i < na && i < nb
        invariant
            i <= na,
            i <= nb,
            na == a@.len(),
            nb == b@.len(),
            forall|j: int| 0 <= j < i ==> a@[j] == b@[j],
        decreases na - i,
    {
        let ca = a.get_char(i);
        let cb = b.get_char(i);
        if ca != cb {
            proof {
                lemma_lex_le_skip(a@, b@, i as int);
                assert(a@.skip(i as int)[0] == a@[i as int]);
                assert(b@.skip(i as int)[0] == b@[i as int]);
            }
            return (ca as u32) < (cb as u32);
        }
        i += 1;
    }
    proof {
        lemma_lex_le_skip(a@, b@, i as int);
        if i == na {
            assert(a@.skip(i as int).len() == 0);
        } else {
            assert(b@.skip(i as int).len() == 0);
            assert(a@.skip(i as int).len() > 0);
        }
    }
    na <= nb
}

pub fn str_eq(a: &str, b: &str) -> (r: bool)
    ensures
        r == (a@ == b@),
{
    let na = a.unicode_len();
    let nb = b.unicode_len();
    if na != nb {
        return false;
    }
    let mut i: usize = 0;
    while i < na
        invariant
            i <= na,
            na == a@.len(),
            nb == b@.len(),
            na == nb,
            forall|j: int| 0 <= j < i ==> a@[j] == b@[j],
        decreases na - i,
    {
        if a.get_char(i) != b.get_char(i) {
            return false;
        }
        i += 1;
    }
    proof {
        assert(a@ =~= b@);
    }
    true
}

/// `s` with leading whitespace removed.
pub open spec fn start_trim(s: Seq<char>) -> Seq<char>
    decreases s.len(),
{
    if s.len() > 0 && is_space(s[0]) {
        start_trim(s.drop_first())
    } else {
        s
    }
}

/// `s` with trailing whitespace removed.
pub open spec fn end_trim(s: Seq<char>) -> Seq<char>
    decreases s.len(),
{
    if s.len() > 0 && is_space(s.last()) {
        end_trim(s.drop_last())
    } else {
        s
    }
}

/// `s` with both leading and trailing whitespace removed.
pub open spec fn spec_trim(s: Seq<char>) -> Seq<char> {
    end_trim(start_trim(s))
}

pub proof fn lemma_start_trim_at(s: Seq<char>, i: int)
    requires
        0 <= i <= s.len(),
        forall|j: int| 0 <= j < i ==> is_space(#[trigger] s[j]),
        i < s.len() ==> !is_space(s[i]),
    ensures
        start_trim(s) == s.skip(i),
    decreases i,
{
    if i == 0 {
        assert(s.skip(0) =~= s);
    } else {
        assert(is_space(s[0]));
        assert forall|j: int| 0 <= j < i - 1 implies is_space(#[trigger] s.drop_first()[j]) by {
            assert(s.drop_first()[j] == s[j + 1]);
        }
        if i - 1 < s.drop_first().len() {
            assert(s.drop_first()[i - 1] == s[i]);
        }
        lemma_start_trim_at(s.drop_first(), i - 1);
        assert(s.drop_first().skip(i - 1) =~= s.skip(i));
    }
}

pub proof fn lemma_end_trim_at(s: Seq<char>, e: int)
    requires
        0 <= e <= s.len(),
        forall|j: int| e <= j < s.len() ==> is_space(#[trigger] s[j]),
        e > 0 ==> !is_space(s[e - 1]),
    ensures
        end_trim(s) == s.take(e),
    decreases s.len() - e,
{
    if e == s.len() {
        if s.len() > 0 {
            assert(!is_space(s.last()));
        }
        assert(s.take(e) =~= s);
    } else {
        assert(is_space(s.last()));
        assert forall|j: int|
            e <= j < s.drop_last().len() implies is_space(#[trigger] s.drop_last()[j]) by {
            assert(s.drop_last()[j] == s[j]);
        }
        if e > 0 {
            assert(s.drop_last()[e - 1] == s[e - 1]);
        }
        lemma_end_trim_at(s.drop_last(), e);
        assert(s.drop_last().take(e) =~= s.take(e));
    }
}

fn first_non_space_from(s: &str) -> (r: usize)
    ensures
        r <= s@.len(),
        forall|j: int| 0 <= j < r ==> is_space(#[trigger] s@[j]),
        r < s@.len() ==> !is_space(s@[r as int]),
{
    let n = s.unicode_len();
    let mut i: usize = 0;
    while i < n
        invariant
            i <= n,
            n == s@.len(),
            forall|j: int| 0 <= j < i ==> is_space(#[trigger] s@[j]),
        decreases n - i,
    {
        if !char_is_space(s.get_char(i)) {
            return i;
        }
        i += 1;
    }
    n
}

fn last_non_space_after(s: &str, start: usize) -> (e: usize)
    requires
        start <= s@.len(),
    ensures
        start <= e <= s@.len(),
        forall|j: int| e <= j < s@.len() ==> is_space(#[trigger] s@[j]),
        e > start ==> !is_space(s@[e - 1]),
{
    let n = s.unicode_len();
    let mut e: usize = n;
    while e > start
        invariant
            start <= e <= n,
            n == s@.len(),
            forall|j: int| e <= j < n ==> is_space(#[trigger] s@[j]),
        decreases e,
    {
        if !char_is_space(s.get_char(e - 1)) {
            return e;
        }
        e -= 1;
    }
    start
}

/// The exact counterpart of [`spec_trim`] on string slices.
pub fn trim_str<'a>(s: &'a str) -> (r: &'a str)
    ensures
        r@ == spec_trim(s@),
{
    let start = first_non_space_from(s);
    proof {
        lemma_start_trim_at(s@, start as int);
    }
    let e = last_non_space_after(s, start);
    proof {
        if e == start && start < s@.len() {
            assert(is_space(s@[start as int]));
        }
        let t = s@.skip(start as int);
        assert forall|j: int|
            e - start <= j < t.len() implies is_space(#[trigger] t[j]) by {
            assert(t[j] == s@[j + start]);
        }
        if e > start {
            assert(t[e - start - 1] == s@[e - 1]);
        }
        lemma_end_trim_at(t, e - start);
    }
    let r = s.substring_char(start, e);
    proof {
        assert(r@ =~= s@.skip(start as int).take(e - start));
    }
    r
}

/// A trimmed value is never blank unless it is empty: its first and last
/// characters are not whitespace.
pub proof fn lemma_trim_no_edge_space(s: Seq<char>)
    ensures
        spec_trim(s).len() > 0 ==> !is_space(spec_trim(s)[0]),
        spec_trim(s).len() > 0 ==> !is_space(spec_trim(s).last()),
{
    lemma_start_trim_head(s);
    lemma_end_trim_props(start_trim(s));
    if spec_trim(s).len() > 0 {
        assert(spec_trim(s)[0] == start_trim(s)[0]);
    }
}

proof fn lemma_start_trim_head(s: Seq<char>)
    ensures
        start_trim(s).len() > 0 ==> !is_space(start_trim(s)[0]),
    decreases s.len(),
{
    if s.len() > 0 && is_space(s[0]) {
        lemma_start_trim_head(s.drop_first());
    }
}

/// `end_trim(s)` is a prefix of `s` whose last character, if any, is not
/// whitespace.
pub proof fn lemma_end_trim_props(s: Seq<char>)
    ensures
        end_trim(s).len() <= s.len(),
        end_trim(s) == s.take(end_trim(s).len() as int),
        end_trim(s).len() > 0 ==> !is_space(end_trim(s).last()),
    decreases s.len(),
{
    if s.len() > 0 && is_space(s.last()) {
        lemma_end_trim_props(s.drop_last());
        assert(s.drop_last().take(end_trim(s).len() as int) =~= s.take(end_trim(s).len() as int));
    } else {
        assert(s.take(s.len() as int) =~= s);
    }
}

/// The views of a sequence of strings, as character sequences.
pub open spec fn str_views(s: Seq<String>) -> Seq<Seq<char>> {
    s.map_values(|x: String| x@)
}

/// `x` inserted into `s` in front of the first element it is
/// lexicographically at most equal to.
pub open spec fn insert_le(x: Seq<char>, s: Seq<Seq<char>>) -> Seq<Seq<char>>
    decreases s.len(),
{
    if s.len() == 0 {
        seq![x]
    } else if lex_le(x, s[0]) {
        seq![x] + s
    } else {
        seq![s[0]] + insert_le(x, s.drop_first())
    }
}

/// Insertion sort of character sequences in lexicographic order.
pub open spec fn sort_le(s: Seq<Seq<char>>) -> Seq<Seq<char>>
    decreases s.len(),
{
    if s.len() == 0 {
        s
    } else {
        insert_le(s[0], sort_le(s.drop_first()))
    }
}

/// Lexicographic order is total: of any two strings, one is at most the
/// other.
pub proof fn lemma_lex_le_total(a: Seq<char>, b: Seq<char>)
    ensures
        lex_le(a, b) || lex_le(b, a),
    decreases a.len(),
{
    if a.len() == 0 {
    } else if b.len() == 0 {
    } else if a[0] == b[0] {
        lemma_lex_le_total(a.drop_first(), b.drop_first());
    } else {
        assert((a[0] as u32) != (b[0] as u32)) by {
            if (a[0] as u32) == (b[0] as u32) {
                vstd::utf8::char_u32_cast(a[0], a[0] as u32);
                vstd::utf8::char_u32_cast(b[0], b[0] as u32);
            }
        }
    }
}

/// Lexicographic order is transitive.
pub proof fn lemma_lex_le_trans(a: Seq<char>, b: Seq<char>, c: Seq<char>)
    requires
        lex_le(a, b),
        lex_le(b, c),
    ensures
        lex_le(a, c),
    decreases a.len(),
{
    if a.len() == 0 {
    } else if a[0] == b[0] && b[0] == c[0] {
        lemma_lex_le_trans(a.drop_first(), b.drop_first(), c.drop_first());
    }
}

/// Non-decreasing in lexicographic order.
pub open spec fn sorted_le(s: Seq<Seq<char>>) -> bool {
    forall|i: int, j: int| 0 <= i < j < s.len() ==> lex_le(#[trigger] s[i], #[trigger] s[j])
}

/// Every element of `insert_le(x, s)` is `x` or an element of `s`.
pub proof fn lemma_insert_le_elems(x: Seq<char>, s: Seq<Seq<char>>)
    ensures
        insert_le(x, s).len() == s.len() + 1,
        forall|k: int|
            0 <= k < insert_le(x, s).len() ==> (#[trigger] insert_le(x, s)[k]) == x || s.contains(
                insert_le(x, s)[k],
            ),
    decreases s.len(),
{
    if s.len() == 0 {
    } else if lex_le(x, s[0]) {
        assert forall|k: int|
            0 <= k < insert_le(x, s).len() implies (#[trigger] insert_le(x, s)[k]) == x
            || s.contains(insert_le(x, s)[k]) by {
            if k >= 1 {
                assert(insert_le(x, s)[k] == s[k - 1]);
            }
        }
    } else {
        lemma_insert_le_elems(x, s.drop_first());
        assert forall|k: int|
            0 <= k < insert_le(x, s).len() implies (#[trigger] insert_le(x, s)[k]) == x
            || s.contains(insert_le(x, s)[k]) by {
            let r0 = insert_le(x, s.drop_first());
            if k == 0 {
                assert(insert_le(x, s)[0] == s[0]);
                assert(s.contains(s[0]));
            } else {
                assert(insert_le(x, s)[k] == r0[k - 1]);
                if r0[k - 1] != x {
                    let idx = choose|idx: int|
                        0 <= idx < s.drop_first().len() && s.drop_first()[idx] == r0[k - 1];
                    assert(s[idx + 1] == r0[k - 1]);
                    assert(s.contains(r0[k - 1]));
                }
            }
        }
    }
}

/// Inserting into a sorted sequence keeps it sorted.
pub proof fn lemma_insert_le_sorted(x: Seq<char>, s: Seq<Seq<char>>)
    requires
        sorted_le(s),
    ensures
        sorted_le(insert_le(x, s)),
    decreases s.len(),
{
    if s.len() == 0 {
    } else if lex_le(x, s[0]) {
        let r = seq![x] + s;
        assert forall|i: int, j: int| 0 <= i < j < r.len() implies lex_le(
            #[trigger] r[i],
            #[trigger] r[j],
        ) by {
            if i == 0 {
                assert(r[j] == s[j - 1]);
                if j > 1 {
                    lemma_lex_le_trans(x, s[0], s[j - 1]);
                }
            } else {
                assert(r[i] == s[i - 1]);
                assert(r[j] == s[j - 1]);
            }
        }
    } else {
        let dl = s.drop_first();
        assert forall|i: int, j: int| 0 <= i < j < dl.len() implies lex_le(
            #[trigger] dl[i],
            #[trigger] dl[j],
        ) by {
            assert(dl[i] == s[i + 1]);
            assert(dl[j] == s[j + 1]);
        }
        lemma_insert_le_sorted(x, dl);
        lemma_insert_le_elems(x, dl);
        lemma_lex_le_total(x, s[0]);
        let r0 = insert_le(x, dl);
        let r = seq![s[0]] + r0;
        assert forall|i: int, j: int| 0 <= i < j < r.len() implies lex_le(
            #[trigger] r[i],
            #[trigger] r[j],
        ) by {
            if i == 0 {
                assert(r[j] == r0[j - 1]);
                if r0[j - 1] == x {
                } else {
                    let idx = choose|idx: int| 0 <= idx < dl.len() && dl[idx] == r0[j - 1];
                    assert(dl[idx] == s[idx + 1]);
                    assert(lex_le(s[0], s[idx + 1]));
                }
            } else {
                assert(r[i] == r0[i - 1]);
                assert(r[j] == r0[j - 1]);
            }
        }
    }
}

proof fn lemma_to_multiset_prepend<A>(x: A, s: Seq<A>)
    ensures
        (seq![x] + s).to_multiset() == s.to_multiset().insert(x),
    decreases s.len(),
{
    broadcast use vstd::seq_lib::group_to_multiset_ensures;
    broadcast use vstd::multiset::group_multiset_axioms;

    if s.len() == 0 {
        assert(seq![x] + s =~= Seq::<A>::empty().push(x));
        assert forall|a: A| Seq::<A>::empty().to_multiset().count(a) == 0 by {
            assert(!Seq::<A>::empty().contains(a));
        }
        assert(Seq::<A>::empty().to_multiset() =~= Multiset::<A>::empty());
        assert((seq![x] + s).to_multiset() =~= s.to_multiset().insert(x));
    } else {
        assert(seq![x] + s =~= (seq![x] + s.drop_last()).push(s.last()));
        lemma_to_multiset_prepend(x, s.drop_last());
        assert(s =~= s.drop_last().push(s.last()));
        assert(s.to_multiset() =~= s.drop_last().to_multiset().insert(s.last()));
        assert(s.drop_last().to_multiset().insert(x).insert(s.last()) =~= s.drop_last()
            .to_multiset().insert(s.last()).insert(x));
        assert((seq![x] + s).to_multiset() =~= s.to_multiset().insert(x));
    }
}

/// Insertion adds exactly the inserted element to the sequence's contents.
pub proof fn lemma_insert_le_multiset(x: Seq<char>, s: Seq<Seq<char>>)
    ensures
        insert_le(x, s).to_multiset() == s.to_multiset().insert(x),
    decreases s.len(),
{
    broadcast use vstd::multiset::group_multiset_axioms;

    if s.len() == 0 {
        assert(insert_le(x, s) =~= seq![x] + s);
        lemma_to_multiset_prepend(x, s);
    } else if lex_le(x, s[0]) {
        lemma_to_multiset_prepend(x, s);
        assert(insert_le(x, s) == seq![x] + s);
    } else {
        let dl = s.drop_first();
        lemma_insert_le_multiset(x, dl);
        lemma_to_multiset_prepend(s[0], insert_le(x, dl));
        lemma_to_multiset_prepend(s[0], dl);
        assert(s =~= seq![s[0]] + dl);
        assert(insert_le(x, s) == seq![s[0]] + insert_le(x, dl));
        assert(insert_le(x, s).to_multiset() == insert_le(x, dl).to_multiset().insert(s[0]));
        assert(insert_le(x, dl).to_multiset() == dl.to_multiset().insert(x));
        assert(dl.to_multiset().insert(x).insert(s[0]) =~= dl.to_multiset().insert(s[0]).insert(
            x,
        ));
        assert(s.to_multiset() == dl.to_multiset().insert(s[0]));
    }
}

/// The sort used for the rendered tags line is a sorting function: its
/// result is lexicographically sorted and is a permutation of its input.
pub proof fn lemma_sort_le_sorted(s: Seq<Seq<char>>)
    ensures
        sorted_le(sort_le(s)),
        sort_le(s).to_multiset() == s.to_multiset(),
    decreases s.len(),
{
    if s.len() > 0 {
        let dl = s.drop_first();
        lemma_sort_le_sorted(dl);
        lemma_insert_le_sorted(s[0], sort_le(dl));
        lemma_insert_le_multiset(s[0], sort_le(dl));
        lemma_to_multiset_prepend(s[0], dl);
        assert(s =~= seq![s[0]] + dl);
    }
}

pub fn insert_sorted(x: String, s: Vec<String>) -> (r: Vec<String>)
    ensures
        str_views(r@) == insert_le(x@, str_views(s@)),
    decreases s@.len(),
{
    let ghost gs = s@;
    if s.len() == 0 {
        let mut r: Vec<String> = Vec::new();
        r.push(x);
        proof {
            assert(str_views(r@) =~= insert_le(x@, str_views(gs)));
        }
        r
    } else if str_le(x.as_str(), s[0].as_str()) {
        let mut r: Vec<String> = Vec::new();
        r.push(x);
        let mut s2 = s;
        r.append(&mut s2);
        proof {
            assert(str_views(r@) =~= insert_le(x@, str_views(gs)));
        }
        r
    } else {
        let mut s2 = s;
        let first = s2.remove(0);
        let r0 = insert_sorted(x, s2);
        let mut r = r0;
        r.insert(0, first);
        proof {
            assert(gs.remove(0) =~= gs.drop_first());
            assert(str_views(gs.drop_first()) =~= str_views(gs).drop_first());
            assert(str_views(r@) =~= seq![first@] + insert_le(x@, str_views(gs).drop_first()));
        }
        r
    }
}

pub fn sort_strings(s: Vec<String>) -> (r: Vec<String>)
    ensures
        str_views(r@) == sort_le(str_views(s@)),
    decreases s@.len(),
{
    let ghost gs = s@;
    if s.len() == 0 {
        s
    } else {
        let mut s2 = s;
        let first = s2.remove(0);
        let rest = sort_strings(s2);
        let r = insert_sorted(first, rest);
        proof {
            assert(gs.remove(0) =~= gs.drop_first());
            assert(str_views(gs.drop_first()) =~= str_views(gs).drop_first());
        }
        r
    }
}

pub fn copy_strings(v: &Vec<String>) -> (r: Vec<String>)
    ensures
        str_views(r@) == str_views(v@),
        r@.len() == v@.len(),
{
    let mut r: Vec<String> = Vec::new();
    let mut i: usize = 0;
    while i < v.len()
        invariant
            i <= v@.len(),
            str_views(r@) == str_views(v@).take(i as int),
        decreases v@.len() - i,
    {
        let ghost old_r = r@;
        let c = v[i].clone();
        proof {
            assert(c == v@[i as int]);
        }
        r.push(c);
        proof {
            assert(str_views(old_r).len() == old_r.len());
            assert(old_r.len() == i as int);
            assert(r@ == old_r.push(v@[i as int]));
            assert(r@.len() == i + 1);
            assert forall|j: int| 0 <= j < i + 1 implies str_views(r@)[j] == str_views(v@).take(
                i + 1,
            )[j] by {
                if j < i {
                    assert(r@[j] == old_r[j]);
                    assert(str_views(old_r)[j] == str_views(v@).take(i as int)[j]);
                }
            }
            assert(str_views(r@) =~= str_views(v@).take(i + 1));
        }
        i += 1;
    }
    proof {
        assert(str_views(v@).take(v@.len() as int) =~= str_views(v@));
        assert(str_views(r@).len() == r@.len());
    }
    r
}

/// The elements of `s` joined with a comma and a space between neighbours.
pub open spec fn join_comma(s: Seq<Seq<char>>) -> Seq<char>
    decreases s.len(),
{
    if s.len() == 0 {
        Seq::empty()
    } else if s.len() == 1 {
        s[0]
    } else {
        s[0] + ", "@ + join_comma(s.drop_first())
    }
}

pub proof fn lemma_join_comma_push(s: Seq<Seq<char>>, x: Seq<char>)
    ensures
        join_comma(s.push(x)) == (if s.len() == 0 {
            x
        } else {
            join_comma(s) + ", "@ + x
        }),
    decreases s.len(),
{
    if s.len() == 0 {
        assert(s.push(x)[0] == x);
    } else if s.len() == 1 {
        assert(s.push(x).drop_first() =~= seq![x]);
        assert(join_comma(seq![x]) == x);
    } else {
        assert(s.push(x).drop_first() =~= s.drop_first().push(x));
        lemma_join_comma_push(s.drop_first(), x);
    }
}

pub fn join_comma_strings(items: &Vec<String>) -> (r: String)
    ensures
        r@ == join_comma(str_views(items@)),
{
    let mut out = String::new();
    let mut i: usize = 0;
    while i < items.len()
        invariant
            i <= items@.len(),
            out@ == join_comma(str_views(items@).take(i as int)),
        decreases items@.len() - i,
    {
        if i > 0 {
            out.append(", ");
        }
        out.append(items[i].as_str());
        proof {
            let sv = str_views(items@);
            assert(sv.take(i as int).push(sv[i as int]) =~= sv.take(i + 1));
            lemma_join_comma_push(sv.take(i as int), sv[i as int]);
        }
        i += 1;
    }
    proof {
        assert(str_views(items@).take(items@.len() as int) =~= str_views(items@));
    }
    out
}

pub fn lower_str(s: &str) -> (r: String)
    ensures
        r@ == lower(s@),
{
    let n = s.unicode_len();
    let mut out = String::new();
    let mut i: usize = 0;
    while i < n
        invariant
            i <= n,
            n == s@.len(),
            out@ == lower(s@.take(i as int)),
        decreases n - i,
    {
        out.push(to_lower_char(s.get_char(i)));
        proof {
            assert(lower(s@.take(i + 1)) =~= lower(s@.take(i as int)).push(lower_char(s@[i as int])));
        }
        i += 1;
    }
    proof {
        assert(s@.take(n as int) =~= s@);
    }
    out
}

pub fn push_two_digits(out: &mut String, n: u32)
    requires
        n < 100,
    ensures
        final(out)@ == old(out)@ + two_digits(n as int),
{
    out.push(digit_to_char(n / 10));
    out.push(digit_to_char(n % 10));
    proof {
        assert(out@ =~= old(out)@ + two_digits(n as int));
    }
}

pub fn push_four_digits(out: &mut String, n: u32)
    requires
        n < 10000,
    ensures
        final(out)@ == old(out)@ + four_digits(n as int),
{
    out.push(digit_to_char(n / 1000));
    out.push(digit_to_char((n / 100) % 10));
    out.push(digit_to_char((n / 10) % 10));
    out.push(digit_to_char(n % 10));
    proof {
        assert(out@ =~= old(out)@ + four_digits(n as int));
    }
}

} // verus!
