use file_browser::entry::{sort_directory_entries, DirectoryEntry};
use file_browser::page::{
    generate_directory_listing, generate_error_page, generate_file_info, size_text,
};
use file_browser::request::{extract_path, parse_request, RequestPath};
use file_browser::response::{frame_response, generate_response, resolve_lookup, Lookup, ResolvedTarget};
use file_browser::time::{epoch_offset, format_timestamp, local_time, LocalTime};

fn when() -> LocalTime {
    LocalTime { year: 2024, month: 3, day: 5, hour: 7, minute: 8, second: 9 }
}

fn entry(name: &str, is_dir: bool, size: u64) -> DirectoryEntry {
    DirectoryEntry { name: name.to_string(), is_dir, size, modified: when() }
}

fn text(b: &[u8]) -> String {
    String::from_utf8(b.to_vec()).unwrap()
}

fn segments(p: &RequestPath) -> Vec<&str> {
    p.segments.iter().map(|s| s.as_str()).collect()
}

fn listing_of(path: &[&str], entries: Vec<DirectoryEntry>) -> String {
    let p = RequestPath { segments: path.iter().map(|s| s.to_string()).collect() };
    text(&generate_directory_listing(&p, entries))
}

#[test]
fn decodes_percent_escaped_space() {
    let p = extract_path(b"GET /a%20b HTTP/1.1\r\nHost: x\r\n\r\n");
    assert_eq!(segments(&p), vec!["a b"]);
}

#[test]
fn escaped_and_plain_targets_resolve_alike() {
    let escaped = extract_path(b"GET /dir%2Fa%20b HTTP/1.1\r\n");
    let plain = extract_path(b"GET /dir/a\tb HTTP/1.1\r\n");
    assert_eq!(segments(&escaped), vec!["dir", "a b"]);
    assert_eq!(segments(&plain), vec!["dir", "a"]);
    let root = RequestPath::root();
    assert_eq!(escaped.fs_path("/srv"), "/srv/dir/a b");
    assert_eq!(root.fs_path("/srv"), "/srv");
}

#[test]
fn target_without_leading_slash_keeps_first_byte() {
    let p = extract_path(b"GET abc HTTP/1.1");
    assert_eq!(segments(&p), vec!["abc"]);
    let q = extract_path(b"GET /abc HTTP/1.1");
    assert_eq!(segments(&q), vec!["abc"]);
}

#[test]
fn missing_target_means_root() {
    assert!(extract_path(b"GET").is_root());
    assert!(extract_path(b"").is_root());
    assert!(extract_path(b"   \r\n/x y").is_root());
    assert!(extract_path(b"GET / HTTP/1.1\r\n").is_root());
}

#[test]
fn dot_segments_stay_below_root() {
    let p = extract_path(b"GET /../a/./b/../../../etc//passwd/ HTTP/1.1");
    assert_eq!(segments(&p), vec!["etc", "passwd"]);
    let q = extract_path(b"GET /%2E%2E/x HTTP/1.1");
    assert_eq!(segments(&q), vec!["x"]);
}

#[test]
fn trailing_slash_is_ignored() {
    let a = extract_path(b"GET /photos/ HTTP/1.1");
    let b = extract_path(b"GET /photos HTTP/1.1");
    assert_eq!(segments(&a), segments(&b));
}

#[test]
fn invalid_utf8_is_replaced() {
    let p = extract_path(b"GET /a%FFb HTTP/1.1");
    assert_eq!(segments(&p), vec!["a\u{FFFD}b"]);
}

#[test]
fn empty_read_gives_no_request() {
    assert!(parse_request(b"").is_none());
    let p = parse_request(b"GET /x HTTP/1.1").unwrap();
    assert_eq!(segments(&p), vec!["x"]);
}

#[test]
fn directories_sort_before_files_then_by_name() {
    let sorted = sort_directory_entries(vec![
        entry("b.txt", false, 1),
        entry("a.txt", false, 1),
        entry("sub", true, 0),
        entry("zz", true, 0),
    ]);
    let names: Vec<&str> = sorted.iter().map(|e| e.name.as_str()).collect();
    assert_eq!(names, vec!["sub", "zz", "a.txt", "b.txt"]);
}

#[test]
fn names_compare_by_bytes() {
    let sorted = sort_directory_entries(vec![
        entry("b", false, 1),
        entry("B", false, 1),
        entry("ab", false, 1),
        entry("a", false, 1),
        entry("é", false, 1),
    ]);
    let names: Vec<&str> = sorted.iter().map(|e| e.name.as_str()).collect();
    assert_eq!(names, vec!["B", "a", "ab", "b", "é"]);
}

#[test]
fn listing_is_deterministic() {
    let make = || vec![entry("b.txt", false, 10), entry("sub", true, 0), entry("a.txt", false, 20)];
    let once = listing_of(&["docs"], make());
    let twice = listing_of(&["docs"], make());
    assert_eq!(once, twice);
    let reordered = listing_of(
        &["docs"],
        vec![entry("a.txt", false, 20), entry("b.txt", false, 10), entry("sub", true, 0)],
    );
    assert_eq!(once, reordered);
}

#[test]
fn root_listing_of_notes_and_photos() {
    let doc = listing_of(&[], vec![entry("notes.txt", false, 2048), entry("photos", true, 0)]);
    let photos = doc.find(">📁 photos<").unwrap();
    let notes = doc.find(">📄 notes.txt<").unwrap();
    assert!(photos < notes);
    assert!(doc.contains("<td>2.0 KiB</td>"));
    assert!(doc[photos..notes].contains("<td>-</td>"));
    assert!(doc.contains("<td>2024-03-05 07:08:09</td>"));
    assert!(doc.contains(r#"<a href="%2F%2Fphotos">"#));
    assert!(doc.contains(r#"<a href="%2F%2Fnotes%2Etxt">"#));
    assert!(!doc.contains("📁 .."));
}

#[test]
fn nested_listing_has_one_parent_row() {
    let doc = listing_of(&["a", "b c"], vec![entry("x", false, 1)]);
    assert_eq!(doc.matches("📁 ..").count(), 1);
    assert!(doc.contains(r#"<tr><td><a href="/a">📁 ..</a></td>"#));
    assert!(doc.contains(r#"<a href="%2Fa%2Fb%20c%2Fx">"#));
    assert!(doc.contains("<title>File Browser - /a/b c</title>"));
    let top = listing_of(&["a"], vec![]);
    assert!(top.contains(r#"<tr><td><a href="/">📁 ..</a></td>"#));
}

#[test]
fn empty_directory_lists_nothing() {
    let doc = listing_of(&["photos"], vec![]);
    assert!(!doc.contains("📄"));
    assert!(doc.contains("<title>File Browser - /photos</title>"));
}

#[test]
fn file_info_shows_size_and_time() {
    let doc = text(&generate_file_info("notes.txt", 2048, &when()));
    assert!(doc.contains("<h2>📄 notes.txt</h2>"));
    assert!(doc.contains("<p>Size: 2.0 KiB</p>"));
    assert!(doc.contains("<p>Modified: 2024-03-05 07:08:09</p>"));
    assert!(doc.contains("history.back()"));
}

#[test]
fn file_response_uses_last_segment() {
    let p = extract_path(b"GET /notes.txt HTTP/1.1");
    let r = text(&generate_response(&p, ResolvedTarget::File { size: 2048, modified: when() }));
    assert!(r.contains("<title>File Info - notes.txt</title>"));
    assert!(r.contains("2.0 KiB"));
    assert!(r.contains("2024-03-05 07:08:09"));
}

#[test]
fn content_length_counts_bytes() {
    let body = "📁 x".as_bytes();
    let r = frame_response(body);
    let expected = "HTTP/1.1 200 OK\r\nContent-Type: text/html; charset=utf-8\r\nContent-Length: 6\r\n\r\n📁 x";
    assert_eq!(text(&r), expected);
    assert_eq!(text(&frame_response(b"")), "HTTP/1.1 200 OK\r\nContent-Type: text/html; charset=utf-8\r\nContent-Length: 0\r\n\r\n");
}

#[test]
fn every_response_length_matches_body() {
    let p = RequestPath::root();
    let r = generate_response(&p, ResolvedTarget::Directory(vec![entry("notes.txt", false, 2048)]));
    let s = text(&r);
    let (head, body) = s.split_once("\r\n\r\n").unwrap();
    let len: usize = head.split("Content-Length: ").nth(1).unwrap().parse().unwrap();
    assert_eq!(len, body.len());
    assert!(body.len() > body.chars().count());
}

#[test]
fn missing_path_gets_error_page_with_ok_status() {
    let p = extract_path(b"GET /no/such HTTP/1.1");
    let r = text(&generate_response(&p, ResolvedTarget::Missing));
    assert!(r.starts_with("HTTP/1.1 200 OK\r\n"));
    let page = generate_error_page();
    assert!(r.ends_with(&page));
    assert!(page.contains("404 - Path Not Found"));
    assert!(page.contains(r#"<a href="/">Return to Home</a>"#));
}

#[test]
fn sizes_in_binary_units() {
    assert_eq!(text(&size_text(2048)), "2.0 KiB");
    assert_eq!(text(&size_text(1536)), "1.50 KiB");
    assert_eq!(text(&size_text(3 * 1024 * 1024)), "3.0 MiB");
    assert_eq!(text(&size_text(512)), "512.0 B");
}

#[test]
fn timestamps_are_zero_padded() {
    let t = LocalTime { year: 5, month: 1, day: 2, hour: 0, minute: 0, second: 59 };
    assert_eq!(text(&format_timestamp(&t)), "0005-01-02 00:00:59");
    let t = LocalTime { year: -1, month: 12, day: 31, hour: 23, minute: 59, second: 0 };
    assert_eq!(text(&format_timestamp(&t)), "-0001-12-31 23:59:00");
    let t = LocalTime { year: 12345, month: 10, day: 10, hour: 10, minute: 10, second: 10 };
    assert_eq!(text(&format_timestamp(&t)), "+12345-10-10 10:10:10");
}

#[test]
fn local_time_is_in_range() {
    let t = local_time(1_700_000_000, 0).unwrap();
    assert!((1..=12).contains(&t.month));
    assert!((2023..=2024).contains(&t.year));
    assert!(local_time(i64::MAX, 0).is_none());
}

#[test]
fn local_time_covers_ordinary_instants() {
    assert!(local_time(0, 0).is_some());
    assert!(local_time(-8_000_000_000_000, 999_999_999).is_some());
    assert!(local_time(0, 2_000_000_000).is_none());
}

#[test]
fn epoch_offsets_count_nanoseconds_forward() {
    assert_eq!(epoch_offset(false, 5, 7), Some((5, 7)));
    assert_eq!(epoch_offset(true, 5, 0), Some((-5, 0)));
    assert_eq!(epoch_offset(true, 5, 250_000_000), Some((-6, 750_000_000)));
    assert_eq!(epoch_offset(false, u64::MAX, 0), None);
}

#[test]
fn lookups_resolve_per_filesystem_rules() {
    assert!(matches!(resolve_lookup(Lookup::Unreadable), ResolvedTarget::Missing));
    assert!(matches!(resolve_lookup(Lookup::Directory(None)), ResolvedTarget::Missing));
    assert!(matches!(
        resolve_lookup(Lookup::File { size: 3, modified: None }),
        ResolvedTarget::Missing
    ));
    assert!(matches!(
        resolve_lookup(Lookup::File { size: 3, modified: Some(when()) }),
        ResolvedTarget::File { size: 3, .. }
    ));
    let r = resolve_lookup(Lookup::Directory(Some(vec![
        Some(entry("a", false, 1)),
        None,
        Some(entry("b", true, 0)),
    ])));
    match r {
        ResolvedTarget::Directory(es) => {
            let names: Vec<&str> = es.iter().map(|e| e.name.as_str()).collect();
            assert_eq!(names, vec!["a", "b"]);
        }
        _ => panic!("expected a directory"),
    }
}
