//! Framing of a rendered document as an HTTP response, and the response to a
//! resolved request.
use vstd::prelude::*;
use crate::digits::{digits, digits_value, push_digits, lemma_digits_value};
use crate::entry::DirectoryEntry;
use crate::page::{
    ERROR_PAGE, lit, listing_document, file_document, parent_row, link_of, display_path,
    entry_rows, generate_directory_listing, generate_file_info, generate_error_page, LISTING_HEAD,
    LISTING_STYLE, LISTING_TABLE, LISTING_GAP, LISTING_TAIL, PARENT_ROW_HEAD, PARENT_ROW_TAIL,
};
use crate::entry::sort_entries;
use crate::request::RequestPath;
use crate::time::LocalTime;

verus! {

pub const STATUS_LINE: &'static str = "HTTP/1.1 200 OK\r\n";

pub const TYPE_HEADER: &'static str = "Content-Type: text/html; charset=utf-8\r\n";

pub const LENGTH_HEADER: &'static str = "Content-Length: ";

pub const HEADER_END: &'static str = "\r\n\r\n";

/// Everything before the body: status line, headers and the blank line.
pub open spec fn response_head(body_len: nat) -> Seq<u8> {
    lit(STATUS_LINE) + lit(TYPE_HEADER) + lit(LENGTH_HEADER) + digits(body_len) + lit(HEADER_END)
}

/// A response that carries `body`.
pub open spec fn framed(body: Seq<u8>) -> Seq<u8> {
    response_head(body.len()) + body
}

/// Wraps a document in a response: status 200, HTML content type, and a
/// Content-Length equal to the body's length in bytes.
pub fn frame_response(body: &[u8]) -> (r: Vec<u8>)
    ensures
        r@ == framed(body@),
{
    let mut out: Vec<u8> = Vec::new();
    out.extend_from_slice(STATUS_LINE.as_bytes());
    out.extend_from_slice(TYPE_HEADER.as_bytes());
    out.extend_from_slice(LENGTH_HEADER.as_bytes());
    push_digits(&mut out, body.len() as u64);
    out.extend_from_slice(HEADER_END.as_bytes());
    out.extend_from_slice(body);
    assert(out@ =~= framed(body@));
    out
}

/// What a path turned out to be on disk.
pub enum ResolvedTarget {
    /// A directory, with those of its entries whose metadata could be read.
    Directory(Vec<DirectoryEntry>),
    /// A regular file.
    File { size: u64, modified: LocalTime },
    /// Nothing there, or nothing readable.
    Missing,
}

impl ResolvedTarget {
    pub open spec fn wf(&self) -> bool {
        match self {
            ResolvedTarget::Directory(es) => forall|k: int|
                0 <= k < es@.len() ==> (#[trigger] es@[k]).wf(),
            ResolvedTarget::File { modified, .. } => modified.wf(),
            ResolvedTarget::Missing => true,
        }
    }
}

/// What the filesystem reported of a path.
pub enum Lookup {
    /// Its metadata could not be read (it does not exist, or access failed).
    Unreadable,
    /// A directory: its children, each None where the child's metadata could
    /// not be read; None where the directory could not be opened.
    Directory(Option<Vec<Option<DirectoryEntry>>>),
    /// A file, with its modification time where one was available.
    File { size: u64, modified: Option<LocalTime> },
}

/// The children whose metadata could be read, in the order read.
pub open spec fn readable_entries(s: Seq<Option<DirectoryEntry>>) -> Seq<DirectoryEntry>
    decreases s.len(),
{
    if s.len() == 0 {
        Seq::empty()
    } else {
        match s.last() {
            Some(e) => readable_entries(s.drop_last()).push(e),
            None => readable_entries(s.drop_last()),
        }
    }
}

/// What a lookup resolves to: anything unreadable is Missing, a child that
/// could not be read is left out of its directory.
pub open spec fn resolved(l: Lookup, target: ResolvedTarget) -> bool {
    match l {
        Lookup::Directory(Some(children)) => match target {
            ResolvedTarget::Directory(es) => es@ == readable_entries(children@),
            _ => false,
        },
        Lookup::File { size, modified: Some(m) } => target == (ResolvedTarget::File {
            size,
            modified: m,
        }),
        _ => target is Missing,
    }
}

/// Classifies what the filesystem reported of a path.
pub fn resolve_lookup(l: Lookup) -> (r: ResolvedTarget)
    ensures
        resolved(l, r),
{
    match l {
        Lookup::Unreadable => ResolvedTarget::Missing,
        Lookup::Directory(None) => ResolvedTarget::Missing,
        Lookup::Directory(Some(children)) => {
            let ghost orig = children@;
            let mut rest = children;
            let mut out: Vec<DirectoryEntry> = Vec::new();
            let n = rest.len();
            let mut i: usize = 0;
            while i < n
                invariant
                    i <= n == orig.len(),
                    rest@ == orig.subrange(i as int, n as int),
                    out@ == readable_entries(orig.subrange(0, i as int)),
                decreases n - i,
            {
                let c = rest.remove(0);
                assert(orig.subrange(0, i + 1).drop_last() =~= orig.subrange(0, i as int));
                assert(c == orig[i as int]);
                match c {
                    Some(e) => out.push(e),
                    None => {},
                }
                i = i + 1;
                assert(rest@ =~= orig.subrange(i as int, n as int));
            }
            assert(orig.subrange(0, n as int) =~= orig);
            ResolvedTarget::Directory(out)
        },
        Lookup::File { size, modified: Some(m) } => ResolvedTarget::File { size, modified: m },
        Lookup::File { modified: None, .. } => ResolvedTarget::Missing,
    }
}

/// The last segment: the name of what the path points at.
pub open spec fn last_name(segs: Seq<Seq<char>>) -> Seq<char> {
    if segs.len() == 0 {
        Seq::empty()
    } else {
        segs.last()
    }
}

/// The document for a path and what it resolved to.
pub open spec fn document_of(segs: Seq<Seq<char>>, target: ResolvedTarget) -> Seq<u8> {
    match target {
        ResolvedTarget::Directory(es) => listing_document(segs, es@),
        ResolvedTarget::File { size, modified } => file_document(last_name(segs), size, modified),
        ResolvedTarget::Missing => lit(ERROR_PAGE),
    }
}

/// The full response to a request for `path`, which resolved to `target`:
/// the listing, the details page or the error page, framed.
pub fn generate_response(path: &RequestPath, target: ResolvedTarget) -> (r: Vec<u8>)
    requires
        target.wf(),
    ensures
        r@ == framed(document_of(path@, target)),
{
    let ghost t = target;
    let body = match target {
        ResolvedTarget::Directory(es) => generate_directory_listing(path, es),
        ResolvedTarget::File { size, modified } => {
            if path.segments.len() == 0 {
                generate_file_info("", size, &modified)
            } else {
                let n = path.segments.len();
                generate_file_info(path.segments[n - 1].as_str(), size, &modified)
            }
        },
        ResolvedTarget::Missing => {
            let page = generate_error_page();
            let mut b: Vec<u8> = Vec::new();
            b.extend_from_slice(page.as_str().as_bytes());
            b
        },
    };
    proof {
        reveal_strlit("");
    }
    assert(body@ == document_of(path@, t));
    frame_response(body.as_slice())
}

/// The Content-Length of every response spells the exact number of bytes
/// that follow the blank line.
pub proof fn lemma_content_length_exact(body: Seq<u8>)
    ensures
        framed(body) == lit(STATUS_LINE) + lit(TYPE_HEADER) + lit(LENGTH_HEADER) + digits(
            body.len(),
        ) + lit(HEADER_END) + body,
        digits_value(digits(body.len())) == body.len(),
        framed(body).subrange(
            framed(body).len() - body.len(),
            framed(body).len() as int,
        ) == body,
{
    lemma_digits_value(body.len());
    assert(framed(body).subrange(framed(body).len() - body.len(), framed(body).len() as int)
        =~= body);
}

/// A path with nothing there gets the error page, under status 200.
pub proof fn lemma_missing_is_error_page(segs: Seq<Seq<char>>)
    ensures
        document_of(segs, ResolvedTarget::Missing) == lit(ERROR_PAGE),
        framed(document_of(segs, ResolvedTarget::Missing)).subrange(0, lit(STATUS_LINE).len() as int)
            == lit(STATUS_LINE),
{
    let r = framed(lit(ERROR_PAGE));
    assert(r.subrange(0, lit(STATUS_LINE).len() as int) =~= lit(STATUS_LINE));
}

/// The listing of the root has no row leading to a parent; the listing of
/// any other directory has exactly one, linking to its parent.
pub proof fn lemma_parent_row(segs: Seq<Seq<char>>, entries: Seq<DirectoryEntry>)
    ensures
        listing_document(segs, entries) == lit(LISTING_HEAD) + display_path(segs) + lit(
            LISTING_STYLE,
        ) + display_path(segs) + lit(LISTING_TABLE) + parent_row(segs) + lit(LISTING_GAP)
            + entry_rows(segs, sort_entries(entries)) + lit(LISTING_TAIL),
        segs.len() == 0 ==> parent_row(segs) == Seq::<u8>::empty(),
        segs.len() > 0 ==> parent_row(segs) == lit(PARENT_ROW_HEAD) + link_of(segs.drop_last())
            + lit(PARENT_ROW_TAIL),
{
}

} // verus!
