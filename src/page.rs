//! The HTML documents: a directory listing, a file's details, and the page
//! for a path that is not there.
use vstd::prelude::*;
use vstd::string::StringSliceAdditionalSpecFns;
use vstd::utf8::encode_utf8;
use crate::entry::{
    DirectoryEntry, names_unique, sort_entries, sort_directory_entries, lemma_sort_order_independent,
};
use crate::percent::{percent_encoded, percent_encode_bytes};
use crate::request::{RequestPath, joined};
use crate::time::{LocalTime, timestamp_text, push_timestamp};

verus! {

pub const LISTING_HEAD: &'static str = r#"<!DOCTYPE html>
        <html>
        <head>
            <title>File Browser - "#;

pub const LISTING_STYLE: &'static str = r#"</title>
            <style>
                body { font-family: 'Segoe UI', Tahoma, Geneva, Verdana, sans-serif; margin: 0; padding: 20px; }
                .container { max-width: 1200px; margin: 0 auto; }
                .header { background: #f8f9fa; padding: 20px; border-radius: 8px; margin-bottom: 20px; }
                .breadcrumb { margin-bottom: 20px; }
                table { width: 100%; border-collapse: collapse; }
                th, td { padding: 12px; text-align: left; border-bottom: 1px solid #ddd; }
                th { background: #f8f9fa; }
                tr:hover { background: #f5f5f5; }
                .icon { margin-right: 8px; }
                a { color: #0366d6; text-decoration: none; }
                a:hover { text-decoration: underline; }
            </style>
        </head>
        <body>
            <div class="container">
                <div class="header">
                    <h1>File Browser</h1>
                    <div class="breadcrumb">
                        <a href="/">Root</a> / "#;

pub const LISTING_TABLE: &'static str = r#"</div>
                </div>
                <table>
                    <thead>
                        <tr>
                            <th>Name</th>
                            <th>Size</th>
                            <th>Modified</th>
                        </tr>
                    </thead>
                    <tbody>
                        "#;

pub const LISTING_GAP: &'static str = r#"
                        "#;

pub const LISTING_TAIL: &'static str = r#"
                    </tbody>
                </table>
            </div>
        </body>
        </html>"#;

pub const PARENT_ROW_HEAD: &'static str = r#"<tr><td><a href=""#;

pub const PARENT_ROW_TAIL: &'static str = r#"">📁 ..</a></td><td>-</td><td>-</td></tr>"#;

pub const ROW_HEAD: &'static str = r#"<tr>
                    <td><a href=""#;

pub const ROW_LINK_END: &'static str = r#"">"#;

pub const DIR_MARK: &'static str = "📁 ";

pub const FILE_MARK: &'static str = "📄 ";

pub const ROW_NAME_END: &'static str = r#"</a></td>
                    <td>"#;

pub const ROW_CELL_GAP: &'static str = r#"</td>
                    <td>"#;

pub const ROW_TAIL: &'static str = r#"</td>
                </tr>"#;

pub const NO_SIZE: &'static str = "-";

pub const ROW_SEPARATOR: &'static str = "\n";

pub const SLASH: &'static str = "/";

pub const FILE_HEAD: &'static str = r#"<!DOCTYPE html>
        <html>
        <head>
            <title>File Info - "#;

pub const FILE_STYLE: &'static str = r#"</title>
            <style>
                body { font-family: 'Segoe UI', Tahoma, Geneva, Verdana, sans-serif; margin: 40px; }
                .file-info { background: #f8f9fa; padding: 20px; border-radius: 8px; }
                .back-link { margin-bottom: 20px; }
                a { color: #0366d6; text-decoration: none; }
                a:hover { text-decoration: underline; }
            </style>
        </head>
        <body>
            <div class="back-link">
                <a href="javascript:history.back()">← Back</a>
            </div>
            <div class="file-info">
                <h2>📄 "#;

pub const FILE_SIZE: &'static str = r#"</h2>
                <p>Size: "#;

pub const FILE_MODIFIED: &'static str = r#"</p>
                <p>Modified: "#;

pub const FILE_TAIL: &'static str = r#"</p>
            </div>
        </body>
        </html>"#;

pub const ERROR_PAGE: &'static str = r#"<!DOCTYPE html>
        <html>
        <head>
            <title>Error - Path Not Found</title>
            <style>
                body { font-family: 'Segoe UI', Tahoma, Geneva, Verdana, sans-serif; margin: 40px; }
                .error { color: #dc3545; }
            </style>
        </head>
        <body>
            <h1 class="error">404 - Path Not Found</h1>
            <p>The requested path could not be found.</p>
            <a href="/">Return to Home</a>
        </body>
        </html>"#;

/// What humansize makes of a byte count in binary units.
pub uninterp spec fn binary_size_text(n: u64) -> Seq<char>;

/// Relies on humansize::format_size with the BINARY options (1024-based
/// units such as KiB and MiB), set to keep one decimal on whole values; the
/// text depends on the count alone.
#[verifier::external_body]
fn format_binary_size(n: u64) -> (r: String)
    ensures
        r@ == binary_size_text(n),
{
    humansize::format_size(n, humansize::BINARY.decimal_zeroes(1))
}

/// The text of a byte count in binary units, as UTF-8 bytes.
pub fn size_text(n: u64) -> (r: Vec<u8>)
    ensures
        r@ == encode_utf8(binary_size_text(n)),
{
    let s = format_binary_size(n);
    let mut out: Vec<u8> = Vec::new();
    out.extend_from_slice(s.as_str().as_bytes());
    out
}

/// The bytes of a text.
pub open spec fn lit(s: &str) -> Seq<u8> {
    s.spec_bytes()
}

fn push_str(out: &mut Vec<u8>, s: &str)
    ensures
        final(out)@ == old(out)@ + lit(s),
{
    out.extend_from_slice(s.as_bytes());
}

/// The path as shown: `/` for the root, else each segment after a `/`.
pub open spec fn display_path(segs: Seq<Seq<char>>) -> Seq<u8> {
    if segs.len() == 0 {
        lit(SLASH)
    } else {
        encode_utf8(joined(segs))
    }
}

/// `/` and the percent-encoded bytes of each segment, in turn.
pub open spec fn link_tail(segs: Seq<Seq<char>>) -> Seq<u8>
    decreases segs.len(),
{
    if segs.len() == 0 {
        Seq::empty()
    } else {
        link_tail(segs.drop_last()) + lit(SLASH) + percent_encoded(encode_utf8(segs.last()))
    }
}

/// The link to a path: `/` for the root.
pub open spec fn link_of(segs: Seq<Seq<char>>) -> Seq<u8> {
    if segs.len() == 0 {
        lit(SLASH)
    } else {
        link_tail(segs)
    }
}

/// The row that leads to the parent; none at the root.
pub open spec fn parent_row(segs: Seq<Seq<char>>) -> Seq<u8> {
    if segs.len() == 0 {
        Seq::empty()
    } else {
        lit(PARENT_ROW_HEAD) + link_of(segs.drop_last()) + lit(PARENT_ROW_TAIL)
    }
}

/// The size cell of an entry: a dash for a directory.
pub open spec fn size_cell(e: DirectoryEntry) -> Seq<u8> {
    if e.is_dir {
        lit(NO_SIZE)
    } else {
        encode_utf8(binary_size_text(e.size))
    }
}

/// The link of an entry: the percent-encoding of the shown path of its
/// directory, a `/`, and its name.
pub open spec fn entry_href(segs: Seq<Seq<char>>, name: Seq<char>) -> Seq<u8> {
    percent_encoded(display_path(segs) + lit(SLASH) + encode_utf8(name))
}

/// The start of an entry's row, up to its link.
pub open spec fn row_start(segs: Seq<Seq<char>>, e: DirectoryEntry) -> Seq<u8> {
    lit(ROW_HEAD) + entry_href(segs, e.name@) + lit(ROW_LINK_END)
}

/// The kind mark and the name of an entry.
pub open spec fn row_name(e: DirectoryEntry) -> Seq<u8> {
    lit(
        if e.is_dir {
            DIR_MARK
        } else {
            FILE_MARK
        },
    ) + encode_utf8(e.name@) + lit(ROW_NAME_END)
}

/// The size and modification cells of an entry, to the row's end.
pub open spec fn row_cells(e: DirectoryEntry) -> Seq<u8> {
    size_cell(e) + lit(ROW_CELL_GAP) + timestamp_text(e.modified) + lit(ROW_TAIL)
}

/// The row of one entry of the directory at `segs`.
pub open spec fn entry_row(segs: Seq<Seq<char>>, e: DirectoryEntry) -> Seq<u8> {
    row_start(segs, e) + row_name(e) + row_cells(e)
}

/// The rows of the entries, in the given order, one per line.
pub open spec fn entry_rows(segs: Seq<Seq<char>>, s: Seq<DirectoryEntry>) -> Seq<u8>
    decreases s.len(),
{
    if s.len() == 0 {
        Seq::empty()
    } else if s.len() == 1 {
        entry_row(segs, s[0])
    } else {
        entry_rows(segs, s.drop_last()) + lit(ROW_SEPARATOR) + entry_row(segs, s.last())
    }
}

/// The listing of the directory at `segs` with the given entries.
pub open spec fn listing_document(segs: Seq<Seq<char>>, entries: Seq<DirectoryEntry>) -> Seq<u8> {
    lit(LISTING_HEAD) + display_path(segs) + lit(LISTING_STYLE) + display_path(segs) + lit(
        LISTING_TABLE,
    ) + parent_row(segs) + lit(LISTING_GAP) + entry_rows(segs, sort_entries(entries)) + lit(
        LISTING_TAIL,
    )
}

/// The details page of a file.
pub open spec fn file_document(name: Seq<char>, size: u64, modified: LocalTime) -> Seq<u8> {
    lit(FILE_HEAD) + encode_utf8(name) + lit(FILE_STYLE) + encode_utf8(name) + lit(FILE_SIZE)
        + encode_utf8(binary_size_text(size)) + lit(FILE_MODIFIED) + timestamp_text(modified)
        + lit(FILE_TAIL)
}

fn push_display_path(out: &mut Vec<u8>, path: &RequestPath)
    ensures
        final(out)@ == old(out)@ + display_path(path@),
{
    if path.is_root() {
        push_str(out, SLASH);
    } else {
        let s = path.fs_path("");
        proof {
            reveal_strlit("");
            assert(""@ + joined(path@) =~= joined(path@));
        }
        push_str(out, s.as_str());
    }
}

/// Appends the link tail of the first `upto` segments.
fn push_link_tail(out: &mut Vec<u8>, path: &RequestPath, upto: usize)
    requires
        upto <= path@.len(),
    ensures
        final(out)@ == old(out)@ + link_tail(path@.subrange(0, upto as int)),
{
    let mut i: usize = 0;
    assert(old(out)@ + link_tail(path@.subrange(0, 0)) =~= old(out)@);
    while i < upto
        invariant
            i <= upto <= path@.len() == path.segments@.len(),
            out@ == old(out)@ + link_tail(path@.subrange(0, i as int)),
        decreases upto - i,
    {
        push_str(out, SLASH);
        let enc = percent_encode_bytes(path.segments[i].as_str().as_bytes());
        out.extend_from_slice(enc.as_slice());
        proof {
            assert(path@.subrange(0, i + 1).drop_last() =~= path@.subrange(0, i as int));
            assert(path@[i as int] == path.segments@[i as int]@);
        }
        i = i + 1;
        assert(out@ =~= old(out)@ + link_tail(path@.subrange(0, i as int)));
    }
}

/// The link to the child `name` of the directory at `path`.
fn entry_link(path: &RequestPath, name: &str) -> (r: Vec<u8>)
    ensures
        r@ == entry_href(path@, name@),
{
    let mut text: Vec<u8> = Vec::new();
    push_display_path(&mut text, path);
    push_str(&mut text, SLASH);
    push_str(&mut text, name);
    assert(text@ =~= display_path(path@) + lit(SLASH) + encode_utf8(name@));
    percent_encode_bytes(text.as_slice())
}

fn push_row_start(out: &mut Vec<u8>, path: &RequestPath, e: &DirectoryEntry)
    ensures
        final(out)@ == old(out)@ + row_start(path@, *e),
{
    push_str(out, ROW_HEAD);
    let link = entry_link(path, e.name.as_str());
    out.extend_from_slice(link.as_slice());
    push_str(out, ROW_LINK_END);
    assert(final(out)@ =~= old(out)@ + row_start(path@, *e));
}

fn push_row_name(out: &mut Vec<u8>, e: &DirectoryEntry)
    ensures
        final(out)@ == old(out)@ + row_name(*e),
{
    if e.is_dir {
        push_str(out, DIR_MARK);
    } else {
        push_str(out, FILE_MARK);
    }
    push_str(out, e.name.as_str());
    push_str(out, ROW_NAME_END);
    assert(final(out)@ =~= old(out)@ + row_name(*e));
}

fn push_row_cells(out: &mut Vec<u8>, e: &DirectoryEntry)
    requires
        e.wf(),
    ensures
        final(out)@ == old(out)@ + row_cells(*e),
{
    if e.is_dir {
        push_str(out, NO_SIZE);
    } else {
        let size = size_text(e.size);
        out.extend_from_slice(size.as_slice());
    }
    push_str(out, ROW_CELL_GAP);
    push_timestamp(out, &e.modified);
    push_str(out, ROW_TAIL);
    assert(final(out)@ =~= old(out)@ + row_cells(*e));
}

fn push_entry_row(out: &mut Vec<u8>, path: &RequestPath, e: &DirectoryEntry)
    requires
        e.wf(),
    ensures
        final(out)@ == old(out)@ + entry_row(path@, *e),
{
    push_row_start(out, path, e);
    push_row_name(out, e);
    push_row_cells(out, e);
    assert(final(out)@ =~= old(out)@ + entry_row(path@, *e));
}

proof fn lemma_rows_step(segs: Seq<Seq<char>>, s: Seq<DirectoryEntry>, i: int)
    requires
        0 <= i < s.len(),
    ensures
        entry_rows(segs, s.subrange(0, i + 1)) == entry_rows(segs, s.subrange(0, i)) + (if i
            == 0 {
            Seq::<u8>::empty()
        } else {
            lit(ROW_SEPARATOR)
        }) + entry_row(segs, s[i]),
{
    let next = s.subrange(0, i + 1);
    assert(next.drop_last() =~= s.subrange(0, i));
    if i == 0 {
        assert(entry_rows(segs, s.subrange(0, 0)) =~= Seq::<u8>::empty());
        assert(entry_rows(segs, next) =~= Seq::<u8>::empty() + Seq::<u8>::empty() + entry_row(
            segs,
            s[i],
        ));
    }
}

/// Appends the rows of entries, one per line.
fn push_rows(out: &mut Vec<u8>, path: &RequestPath, sorted: &Vec<DirectoryEntry>)
    requires
        forall|k: int| 0 <= k < sorted@.len() ==> (#[trigger] sorted@[k]).wf(),
    ensures
        final(out)@ == old(out)@ + entry_rows(path@, sorted@),
{
    let mut i: usize = 0;
    assert(sorted@.subrange(0, 0) =~= Seq::<DirectoryEntry>::empty());
    assert(out@ =~= old(out)@ + entry_rows(path@, sorted@.subrange(0, 0)));
    while i < sorted.len()
        invariant
            i <= sorted@.len(),
            forall|k: int| 0 <= k < sorted@.len() ==> (#[trigger] sorted@[k]).wf(),
            out@ == old(out)@ + entry_rows(path@, sorted@.subrange(0, i as int)),
        decreases sorted@.len() - i,
    {
        proof {
            lemma_rows_step(path@, sorted@, i as int);
        }
        if i > 0 {
            push_str(out, ROW_SEPARATOR);
        }
        push_entry_row(out, path, &sorted[i]);
        i = i + 1;
        assert(out@ =~= old(out)@ + entry_rows(path@, sorted@.subrange(0, i as int)));
    }
    assert(sorted@.subrange(0, sorted@.len() as int) =~= sorted@);
}

/// Renders the listing of the directory at `path`: its entries sorted with
/// directories first and by name, a row leading to the parent unless
/// `path` is the root, each entry's link, kind, size and modification time.
pub fn generate_directory_listing(path: &RequestPath, entries: Vec<DirectoryEntry>) -> (r: Vec<u8>)
    requires
        forall|k: int| 0 <= k < entries@.len() ==> (#[trigger] entries@[k]).wf(),
    ensures
        r@ == listing_document(path@, entries@),
{
    let ghost orig = entries@;
    let sorted = sort_directory_entries(entries);
    proof {
        crate::entry::lemma_sort_entries(orig);
        assert forall|k: int| 0 <= k < sorted@.len() implies (#[trigger] sorted@[k]).wf() by {
            vstd::seq_lib::to_multiset_contains(sorted@, sorted@[k]);
            vstd::seq_lib::to_multiset_contains(orig, sorted@[k]);
            assert(sorted@.contains(sorted@[k]));
            let j = choose|j: int| 0 <= j < orig.len() && orig[j] == sorted@[k];
            assert(orig[j].wf());
        }
    }
    let mut out: Vec<u8> = Vec::new();
    push_str(&mut out, LISTING_HEAD);
    push_display_path(&mut out, path);
    push_str(&mut out, LISTING_STYLE);
    push_display_path(&mut out, path);
    push_str(&mut out, LISTING_TABLE);
    if !path.is_root() {
        push_str(&mut out, PARENT_ROW_HEAD);
        let n = path.segments.len();
        if n == 1 {
            push_str(&mut out, SLASH);
        } else {
            push_link_tail(&mut out, path, n - 1);
        }
        proof {
            assert(path@.drop_last() =~= path@.subrange(0, n - 1));
        }
        push_str(&mut out, PARENT_ROW_TAIL);
    }
    push_str(&mut out, LISTING_GAP);
    push_rows(&mut out, path, &sorted);
    push_str(&mut out, LISTING_TAIL);
    assert(out@ =~= listing_document(path@, orig));
    out
}

/// Rendering a directory gives the same bytes whenever its contents are
/// the same, in whatever order its entries were read.
pub proof fn lemma_listing_deterministic(
    segs: Seq<Seq<char>>,
    a: Seq<DirectoryEntry>,
    b: Seq<DirectoryEntry>,
)
    requires
        a.to_multiset() == b.to_multiset(),
        names_unique(a),
    ensures
        listing_document(segs, a) == listing_document(segs, b),
{
    lemma_sort_order_independent(a, b);
}

/// Renders the details page of a file: its name, size and modification
/// time, and a link back.
pub fn generate_file_info(name: &str, size: u64, modified: &LocalTime) -> (r: Vec<u8>)
    requires
        modified.wf(),
    ensures
        r@ == file_document(name@, size, *modified),
{
    let mut out: Vec<u8> = Vec::new();
    push_str(&mut out, FILE_HEAD);
    push_str(&mut out, name);
    push_str(&mut out, FILE_STYLE);
    push_str(&mut out, name);
    push_str(&mut out, FILE_SIZE);
    let s = size_text(size);
    out.extend_from_slice(s.as_slice());
    push_str(&mut out, FILE_MODIFIED);
    push_timestamp(&mut out, modified);
    push_str(&mut out, FILE_TAIL);
    assert(out@ =~= file_document(name@, size, *modified));
    out
}

/// The page for a path that is not there, with a link to the root.
pub fn generate_error_page() -> (r: String)
    ensures
        r@ == ERROR_PAGE@,
{
    ERROR_PAGE.to_owned()
}

} // verus!
