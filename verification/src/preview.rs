//! Content previews: classification of a path's content for display.
//!
//! The surrounding application reads metadata, bytes and lines from disk;
//! the functions here make every decision about what the preview shows: the
//! size staging, the binary test, line capping and truncation, and the
//! ordering of a directory listing.  A preview is always renderable: a read
//! failure becomes an `Error` variant, never a propagated failure.

use vstd::prelude::*;
use vstd::string::StrSliceExecFns;
use vstd::string::StringExecFns;

use crate::strutil::{dec_digits, digit_char, digit_str, lex_lt, lower_of, lowercase, oct_digits, str_lex_lt, u32_to_oct, u64_to_dec};

verus! {

/// Most lines a text preview shows.
pub const MAX_PREVIEW_LINES: usize = 25;

/// Largest file, in bytes, whose content is read for a preview.
pub const MAX_PREVIEW_SIZE: u64 = 50 * 1024;

/// How many leading bytes are examined for the binary test.
pub const BINARY_CHECK_SIZE: usize = 512;

/// Longest line shown untruncated, in characters.
pub const MAX_LINE_CHARS: usize = 200;

/// Metadata shown beside a preview, as plain values: size in bytes,
/// modification time in seconds since the epoch when known, and the
/// permission bits (zero where unsupported).
#[derive(Debug, Clone)]
pub struct PreviewMetadata {
    pub size: u64,
    pub modified: Option<u64>,
    pub permissions: u32,
}

/// One row of a directory-listing preview.
#[derive(Debug, Clone)]
pub struct DirChild {
    pub name: String,
    pub is_dir: bool,
}

/// What a preview shows.
#[derive(Debug, Clone)]
pub enum PreviewContent {
    Text(Vec<String>),
    Directory(Vec<DirChild>),
    Binary,
    TooLarge,
    Empty,
    Error(String),
}

/// A cached preview record for one path.
#[derive(Debug, Clone)]
pub struct PreviewData {
    pub path: String,
    pub content: PreviewContent,
    pub metadata: PreviewMetadata,
    pub cached_at: u64,
}

/// Whether the examined prefix of a file marks it binary: a NUL byte among
/// the first `BINARY_CHECK_SIZE` bytes.
pub open spec fn spec_is_binary(prefix: Seq<u8>) -> bool {
    exists|i: int| 0 <= i < prefix.len() && i < BINARY_CHECK_SIZE && prefix[i] == 0u8
}

/// The binary test over the bytes read from a file.
pub fn is_binary_prefix(prefix: &Vec<u8>) -> (r: bool)
    ensures
        r == spec_is_binary(prefix@),
{
    let n = if prefix.len() < BINARY_CHECK_SIZE {
        prefix.len()
    } else {
        BINARY_CHECK_SIZE
    };
    let mut i: usize = 0;
    while i < n
        invariant
            n <= prefix@.len(),
            n == if prefix@.len() < BINARY_CHECK_SIZE {
                prefix@.len() as int
            } else {
                BINARY_CHECK_SIZE as int
            },
            0 <= i <= n,
            forall|j: int| 0 <= j < i ==> prefix@[j] != 0u8,
        decreases n - i,
    {
        if prefix[i] == 0 {
            return true;
        }
        i += 1;
    }
    false
}

/// A display line: truncated to `MAX_LINE_CHARS` characters with a trailing
/// ellipsis when longer.
pub open spec fn truncated_line(l: Seq<char>) -> Seq<char> {
    if l.len() > MAX_LINE_CHARS {
        l.take(MAX_LINE_CHARS as int) + seq!['.', '.', '.']
    } else {
        l
    }
}

/// The lines a text preview shows: the first `MAX_PREVIEW_LINES` read
/// lines, each truncated.
pub open spec fn text_preview_model(ls: Seq<Seq<char>>) -> Seq<Seq<char>> {
    if ls.len() <= MAX_PREVIEW_LINES {
        ls.map_values(|l: Seq<char>| truncated_line(l))
    } else {
        ls.take(MAX_PREVIEW_LINES as int).map_values(|l: Seq<char>| truncated_line(l))
    }
}

/// Build the text variant from the lines read out of a file: at most
/// `MAX_PREVIEW_LINES` of them, truncated; no lines at all mean an empty
/// preview.
pub fn build_text_preview(lines: &Vec<String>) -> (r: PreviewContent)
    ensures
        lines.deep_view().len() == 0 ==> r is Empty,
        lines.deep_view().len() > 0 ==> r is Text && r->Text_0.deep_view() == text_preview_model(
            lines.deep_view(),
        ),
{
    let ghost ls = lines.deep_view();
    if lines.len() == 0 {
        return PreviewContent::Empty;
    }
    let n = if lines.len() < MAX_PREVIEW_LINES {
        lines.len()
    } else {
        MAX_PREVIEW_LINES
    };
    let mut out: Vec<String> = Vec::new();
    let mut i: usize = 0;
    while i < n
        invariant
            ls == lines.deep_view(),
            ls.len() == lines@.len(),
            n == if ls.len() <= MAX_PREVIEW_LINES {
                ls.len() as int
            } else {
                MAX_PREVIEW_LINES as int
            },
            0 <= i <= n,
            out.deep_view().len() == i,
            forall|j: int| 0 <= j < i ==> out.deep_view()[j] == truncated_line(ls[j]),
        decreases n - i,
    {
        let ghost prev_dv = out.deep_view();
        let line = &lines[i];
        let len = line.as_str().unicode_len();
        proof {
            assert(ls[i as int] == lines@[i as int]@);
        }
        if len > MAX_LINE_CHARS {
            let head = line.as_str().substring_char(0, MAX_LINE_CHARS);
            let mut t = String::from_str(head);
            t.append("...");
            proof {
                reveal_strlit("...");
                assert("..."@ =~= seq!['.', '.', '.']);
                assert(t@ =~= truncated_line(ls[i as int]));
            }
            out.push(t);
        } else {
            let t = String::from_str(line.as_str());
            proof {
                assert(t@ =~= truncated_line(ls[i as int]));
            }
            out.push(t);
        }
        proof {
            assert(out.deep_view() =~= prev_dv.push(truncated_line(ls[i as int])));
        }
        i += 1;
    }
    proof {
        assert(out.deep_view() =~= text_preview_model(ls));
    }
    PreviewContent::Text(out)
}

/// Classify a file's content from its size, the bytes read for the binary
/// test, and the lines read for a text preview.  The stages mirror what a
/// preview shows: nothing for an empty file, a marker for an oversized one,
/// a marker for binary data, else capped and truncated text.
pub fn classify_file_content(size: u64, prefix: &Vec<u8>, lines: &Vec<String>) -> (r:
    PreviewContent)
    ensures
        size == 0 ==> r is Empty,
        size > MAX_PREVIEW_SIZE ==> r is TooLarge,
        0 < size <= MAX_PREVIEW_SIZE && spec_is_binary(prefix@) ==> r is Binary,
        0 < size <= MAX_PREVIEW_SIZE && !spec_is_binary(prefix@) && lines.deep_view().len() == 0
            ==> r is Empty,
        0 < size <= MAX_PREVIEW_SIZE && !spec_is_binary(prefix@) && lines.deep_view().len() > 0
            ==> r is Text && r->Text_0.deep_view() == text_preview_model(lines.deep_view()),
{
    if size == 0 {
        return PreviewContent::Empty;
    }
    if size > MAX_PREVIEW_SIZE {
        return PreviewContent::TooLarge;
    }
    if is_binary_prefix(prefix) {
        return PreviewContent::Binary;
    }
    build_text_preview(lines)
}

/// Order of rows in a directory-listing preview: directories first, then
/// case-insensitive lexicographic by name.
pub open spec fn child_lt(a: DirChild, b: DirChild) -> bool {
    if a.is_dir != b.is_dir {
        a.is_dir
    } else {
        lex_lt(lower_of(a.name@), lower_of(b.name@))
    }
}

/// Listing order, as executable code.
pub fn child_lt_exec(a: &DirChild, b: &DirChild) -> (r: bool)
    ensures
        r == child_lt(*a, *b),
{
    if a.is_dir != b.is_dir {
        a.is_dir
    } else {
        let la = lowercase(a.name.as_str());
        let lb = lowercase(b.name.as_str());
        str_lex_lt(la.as_str(), lb.as_str())
    }
}

/// `x` placed into `t` before the first row that must come after it.
pub open spec fn insert_sorted_child(t: Seq<DirChild>, x: DirChild) -> Seq<DirChild>
    decreases t.len(),
{
    if t.len() == 0 {
        seq![x]
    } else if child_lt(x, t[0]) {
        seq![x] + t
    } else {
        seq![t[0]] + insert_sorted_child(t.drop_first(), x)
    }
}

/// Stable insertion sort of listing rows.
pub open spec fn sort_dir_children(s: Seq<DirChild>) -> Seq<DirChild>
    decreases s.len(),
{
    if s.len() == 0 {
        Seq::<DirChild>::empty()
    } else {
        insert_sorted_child(sort_dir_children(s.drop_last()), s.last())
    }
}

/// Inserting at the first position whose row must come after `x` is exactly
/// what `insert_sorted_child` does.
proof fn lemma_insert_sorted_child_at(t: Seq<DirChild>, x: DirChild, j: int)
    requires
        0 <= j <= t.len(),
        forall|m: int| 0 <= m < j ==> !child_lt(x, t[m]),
        j < t.len() ==> child_lt(x, t[j]),
    ensures
        insert_sorted_child(t, x) == t.insert(j, x),
    decreases t.len(),
{
    if t.len() == 0 {
        assert(insert_sorted_child(t, x) =~= t.insert(0, x));
    } else if child_lt(x, t[0]) {
        assert(j == 0);
        assert(seq![x] + t =~= t.insert(0, x));
    } else {
        assert(j >= 1);
        lemma_insert_sorted_child_at(t.drop_first(), x, j - 1);
        assert(seq![t[0]] + t.drop_first().insert(j - 1, x) =~= t.insert(j, x));
    }
}

/// The position where `x` belongs in the already sorted listing `out`.
fn find_child_pos(out: &Vec<DirChild>, x: &DirChild) -> (j: usize)
    ensures
        j <= out@.len(),
        forall|m: int| 0 <= m < j ==> !child_lt(*x, out@[m]),
        j < out@.len() ==> child_lt(*x, out@[j as int]),
{
    let mut j: usize = 0;
    while j < out.len()
        invariant
            0 <= j <= out@.len(),
            forall|m: int| 0 <= m < j ==> !child_lt(*x, out@[m]),
        decreases out@.len() - j,
    {
        if child_lt_exec(x, &out[j]) {
            return j;
        }
        j += 1;
    }
    j
}

/// Build the directory-listing variant: rows in listing order, or an empty
/// preview for a directory without visible children.
pub fn build_dir_preview(children: &Vec<DirChild>) -> (r: PreviewContent)
    ensures
        children@.len() == 0 ==> r is Empty,
        children@.len() > 0 ==> r is Directory && r->Directory_0@ == sort_dir_children(children@),
{
    if children.len() == 0 {
        return PreviewContent::Empty;
    }
    let mut out: Vec<DirChild> = Vec::new();
    proof {
        assert(out@ =~= sort_dir_children(children@.take(0)));
    }
    let mut i: usize = 0;
    while i < children.len()
        invariant
            0 <= i <= children@.len(),
            out@ == sort_dir_children(children@.take(i as int)),
        decreases children@.len() - i,
    {
        let c = &children[i];
        let x = DirChild { name: c.name.clone(), is_dir: c.is_dir };
        proof {
            assert(x == children@[i as int]);
        }
        let j = find_child_pos(&out, &x);
        let ghost prev = out@;
        out.insert(j, x);
        proof {
            lemma_insert_sorted_child_at(prev, children@[i as int], j as int);
            assert(children@.take(i + 1).drop_last() =~= children@.take(i as int));
            assert(children@.take(i + 1).last() == children@[i as int]);
        }
        i += 1;
    }
    proof {
        assert(children@.take(children@.len() as int) =~= children@);
    }
    PreviewContent::Directory(out)
}

/// A kibibyte, mebibyte and gibibyte, in bytes.
pub const KB: u64 = 1024;

pub const MB: u64 = 1024 * 1024;

pub const GB: u64 = 1024 * 1024 * 1024;

/// Tenths of a unit that a byte count amounts to, rounded half up.
pub open spec fn size_tenths(bytes: u64, unit: u64) -> int {
    ((bytes as int) * 10 + (unit as int) / 2) / (unit as int)
}

/// One scaled figure: whole part, a point, one fractional digit, and the
/// unit suffix, e.g. `1.5` for 1536 bytes scaled by `KB`.
pub open spec fn scaled_digits(bytes: u64, unit: u64) -> Seq<char> {
    dec_digits((size_tenths(bytes, unit) / 10) as nat) + seq!['.'] + seq![
        digit_char(size_tenths(bytes, unit) % 10),
    ]
}

/// A human-readable size: scaled to the largest unit the count reaches,
/// with one fractional digit, or the exact count in bytes below a
/// kibibyte.
pub open spec fn spec_format_size(bytes: u64) -> Seq<char> {
    if bytes >= GB {
        scaled_digits(bytes, GB) + seq![' ', 'G', 'B']
    } else if bytes >= MB {
        scaled_digits(bytes, MB) + seq![' ', 'M', 'B']
    } else if bytes >= KB {
        scaled_digits(bytes, KB) + seq![' ', 'K', 'B']
    } else {
        dec_digits(bytes as nat) + seq![' ', 'B']
    }
}

/// Tenths of a unit, computed exactly.
fn scaled_tenths(bytes: u64, unit: u64) -> (t: u64)
    requires
        1024 <= unit,
    ensures
        t == size_tenths(bytes, unit),
{
    let wide: u128 = ((bytes as u128) * 10 + (unit as u128) / 2) / (unit as u128);
    proof {
        let x = (bytes as int) * 10 + (unit as int) / 2;
        assert(x <= 0x200000000000000000int);
        vstd::arithmetic::div_mod::lemma_div_is_ordered(x, 0x200000000000000000int, unit as int);
        vstd::arithmetic::div_mod::lemma_div_is_ordered_by_denominator(
            0x200000000000000000int,
            1024,
            unit as int,
        );
        assert(x / (unit as int) <= 0x200000000000000000int / 1024);
    }
    wide as u64
}

/// The whole and fractional digits with the unit suffix.
fn format_scaled(bytes: u64, unit: u64, suffix: &str) -> (r: String)
    requires
        1024 <= unit,
    ensures
        r@ == scaled_digits(bytes, unit) + suffix@,
{
    let t = scaled_tenths(bytes, unit);
    let mut s = u64_to_dec(t / 10);
    s.append(".");
    s.append(digit_str(t % 10));
    s.append(suffix);
    proof {
        reveal_strlit(".");
        assert("."@ =~= seq!['.']);
        assert(s@ =~= scaled_digits(bytes, unit) + suffix@);
    }
    s
}

/// A human-readable rendering of a byte count.
pub fn format_size(bytes: u64) -> (r: String)
    ensures
        r@ == spec_format_size(bytes),
{
    if bytes >= GB {
        let r = format_scaled(bytes, GB, " GB");
        proof {
            reveal_strlit(" GB");
            assert(" GB"@ =~= seq![' ', 'G', 'B']);
        }
        r
    } else if bytes >= MB {
        let r = format_scaled(bytes, MB, " MB");
        proof {
            reveal_strlit(" MB");
            assert(" MB"@ =~= seq![' ', 'M', 'B']);
        }
        r
    } else if bytes >= KB {
        let r = format_scaled(bytes, KB, " KB");
        proof {
            reveal_strlit(" KB");
            assert(" KB"@ =~= seq![' ', 'K', 'B']);
        }
        r
    } else {
        let mut s = u64_to_dec(bytes);
        s.append(" B");
        proof {
            reveal_strlit(" B");
            assert(" B"@ =~= seq![' ', 'B']);
            assert(s@ =~= spec_format_size(bytes));
        }
        s
    }
}

/// The permission column: three dashes where permission bits are not
/// known, else the low nine bits in octal.
pub open spec fn spec_format_permissions(mode: u32) -> Seq<char> {
    if mode == 0 {
        seq!['-', '-', '-']
    } else {
        oct_digits((mode & 511) as nat)
    }
}

/// Render the permission column.
pub fn format_permissions(mode: u32) -> (r: String)
    ensures
        r@ == spec_format_permissions(mode),
{
    if mode == 0 {
        proof {
            reveal_strlit("---");
            assert("---"@ =~= seq!['-', '-', '-']);
        }
        String::from_str("---")
    } else {
        u32_to_oct(mode & 511)
    }
}

} // verus!
