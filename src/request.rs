//! Decoding of a raw request into a path below the served root.
use vstd::prelude::*;
use vstd::string::{StrSliceExecFns, StringExecFns};
use vstd::utf8::encode_utf8;
use crate::percent::{percent_decoded, percent_encoded, percent_decode_bytes, lemma_percent_round_trip};

verus! {

/// The bytes that separate the tokens of a request line.
pub open spec fn is_space(b: u8) -> bool {
    b == 0x20 || (0x09 <= b && b <= 0x0d)
}

/// Index of the first line feed at or after `i`, or the length.
pub open spec fn line_end(s: Seq<u8>, i: nat) -> nat
    decreases s.len() - i,
{
    if i >= s.len() {
        s.len()
    } else if s[i as int] == 0x0a {
        i
    } else {
        line_end(s, i + 1)
    }
}

/// First index at or after `i`, below `n`, that does not hold a space.
pub open spec fn skip_spaces(s: Seq<u8>, i: nat, n: nat) -> nat
    decreases n - i,
{
    if i >= n {
        i
    } else if is_space(s[i as int]) {
        skip_spaces(s, i + 1, n)
    } else {
        i
    }
}

/// First index at or after `i`, below `n`, that holds a space.
pub open spec fn token_end(s: Seq<u8>, i: nat, n: nat) -> nat
    decreases n - i,
{
    if i >= n {
        i
    } else if is_space(s[i as int]) {
        i
    } else {
        token_end(s, i + 1, n)
    }
}

/// Where the second token of the first line starts (the line's end when
/// there is none).
pub open spec fn target_start(req: Seq<u8>) -> nat {
    let n = line_end(req, 0);
    let a = skip_spaces(req, 0, n);
    let b = token_end(req, a, n);
    skip_spaces(req, b, n)
}

/// The request target without its leading `/` (kept as it is when it does
/// not start with one); empty when the first line has no second token, which
/// stands for the root.
pub open spec fn target_rest(req: Seq<u8>) -> Seq<u8> {
    let n = line_end(req, 0);
    let c = target_start(req);
    if c < n {
        let from: int = if req[c as int] == 0x2f {
            (c + 1) as int
        } else {
            c as int
        };
        req.subrange(from, token_end(req, c, n) as int)
    } else {
        Seq::empty()
    }
}

/// What `String::from_utf8_lossy` makes of a byte string.
pub uninterp spec fn utf8_lossy(b: Seq<u8>) -> Seq<char>;

/// Relies on String::from_utf8_lossy: the text of the bytes, with each
/// invalid sequence replaced; it depends on the bytes alone, and valid UTF-8
/// comes back as the text it encodes.
#[verifier::external_body]
fn text_of_bytes_lossy(b: &[u8]) -> (r: String)
    ensures
        r@ == utf8_lossy(b@),
        forall|s: Seq<char>| b@ == encode_utf8(s) ==> r@ == s,
{
    String::from_utf8_lossy(b).into_owned()
}

/// A segment that names a child: not empty, not `.` or `..`, no `/` in it.
pub open spec fn is_child_segment(p: Seq<char>) -> bool {
    &&& p.len() > 0
    &&& p != seq!['.']
    &&& p != seq!['.', '.']
    &&& forall|k: int| 0 <= k < p.len() ==> p[k] != '/'
}

/// The segments so far, after one more piece between slashes: empty pieces
/// and `.` change nothing, `..` goes up unless already at the root.
pub open spec fn step(st: Seq<Seq<char>>, p: Seq<char>) -> Seq<Seq<char>> {
    if p.len() == 0 || p == seq!['.'] {
        st
    } else if p == seq!['.', '.'] {
        if st.len() > 0 {
            st.drop_last()
        } else {
            st
        }
    } else {
        st.push(p)
    }
}

/// Segments of the completed pieces of `t`, and the piece after its last `/`.
pub open spec fn scan(t: Seq<char>) -> (Seq<Seq<char>>, Seq<char>)
    decreases t.len(),
{
    if t.len() == 0 {
        (Seq::empty(), Seq::empty())
    } else {
        let (st, cur) = scan(t.drop_last());
        if t.last() == '/' {
            (step(st, cur), Seq::empty())
        } else {
            (st, cur.push(t.last()))
        }
    }
}

/// The normalized segments of a decoded path.
pub open spec fn path_segments(t: Seq<char>) -> Seq<Seq<char>> {
    step(scan(t).0, scan(t).1)
}

/// The segments that a raw request asks for.
pub open spec fn request_segments(req: Seq<u8>) -> Seq<Seq<char>> {
    path_segments(utf8_lossy(percent_decoded(target_rest(req))))
}

/// The texts of a list of strings.
pub open spec fn texts(v: Seq<String>) -> Seq<Seq<char>> {
    v.map_values(|s: String| s@)
}

/// A path below the served root, as a list of child names.
pub struct RequestPath {
    pub segments: Vec<String>,
}

impl View for RequestPath {
    type V = Seq<Seq<char>>;

    open spec fn view(&self) -> Seq<Seq<char>> {
        texts(self.segments@)
    }
}

impl RequestPath {
    /// Every segment names a child, so the path never leaves the root.
    pub open spec fn wf(&self) -> bool {
        forall|k: int| 0 <= k < self@.len() ==> is_child_segment(#[trigger] self@[k])
    }

    /// The root itself.
    pub fn root() -> (r: RequestPath)
        ensures
            r@ == Seq::<Seq<char>>::empty(),
            r.wf(),
    {
        let r = RequestPath { segments: Vec::new() };
        assert(r@ =~= Seq::<Seq<char>>::empty());
        r
    }

    /// The path on disk: the root followed by `/` and each segment.
    pub fn fs_path(&self, root: &str) -> (r: String)
        ensures
            r@ == root@ + joined(self@),
    {
        let mut out = root.to_owned();
        let mut i: usize = 0;
        while i < self.segments.len()
            invariant
                i <= self.segments@.len(),
                out@ == root@ + joined(self@.subrange(0, i as int)),
            decreases self.segments@.len() - i,
        {
            out.append("/");
            out.append(self.segments[i].as_str());
            proof {
                reveal_strlit("/");
                assert(self@.subrange(0, i + 1).drop_last() =~= self@.subrange(0, i as int));
            }
            i = i + 1;
            assert(out@ =~= root@ + joined(self@.subrange(0, i as int)));
        }
        assert(self@.subrange(0, i as int) =~= self@);
        out
    }

    pub fn is_root(&self) -> (r: bool)
        ensures
            r == (self@.len() == 0),
    {
        self.segments.len() == 0
    }
}

/// The segments, each after a `/`.
pub open spec fn joined(segs: Seq<Seq<char>>) -> Seq<char>
    decreases segs.len(),
{
    if segs.len() == 0 {
        Seq::empty()
    } else {
        joined(segs.drop_last()) + seq!['/'] + segs.last()
    }
}

/// Adds one piece between slashes to the segments so far.
fn push_piece(st: &mut Vec<String>, p: &str)
    ensures
        texts(final(st)@) == step(texts(old(st)@), p@),
{
    let n = p.unicode_len();
    if n == 0 {
        return;
    }
    if n == 1 && p.get_char(0) == '.' {
        assert(p@ =~= seq!['.']);
        return;
    }
    if n == 2 && p.get_char(0) == '.' && p.get_char(1) == '.' {
        assert(p@ =~= seq!['.', '.']);
        if st.len() > 0 {
            st.pop();
            assert(texts(st@) =~= texts(old(st)@).drop_last());
        }
        return;
    }
    assert(p@ != seq!['.'] && p@ != seq!['.', '.']) by {
        if p@ == seq!['.'] {
            assert(p@[0] == '.');
        }
        if p@ == seq!['.', '.'] {
            assert(p@[0] == '.' && p@[1] == '.');
        }
    }
    st.push(p.to_owned());
    assert(texts(st@) =~= texts(old(st)@).push(p@));
}

/// Splits decoded path text into its normalized segments.
fn segments_of_text(t: &str) -> (r: Vec<String>)
    ensures
        texts(r@) == path_segments(t@),
{
    let len = t.unicode_len();
    let mut st: Vec<String> = Vec::new();
    let mut start: usize = 0;
    let mut i: usize = 0;
    assert(texts(st@) =~= Seq::<Seq<char>>::empty());
    assert(t@.subrange(0, 0) =~= Seq::<char>::empty());
    while i < len
        invariant
            start <= i <= len == t@.len(),
            scan(t@.subrange(0, i as int)) == (texts(st@), t@.subrange(start as int, i as int)),
        decreases len - i,
    {
        let c = t.get_char(i);
        assert(t@.subrange(0, i + 1).drop_last() =~= t@.subrange(0, i as int));
        if c == '/' {
            push_piece(&mut st, t.substring_char(start, i));
            start = i + 1;
            assert(t@.subrange(start as int, i + 1) =~= Seq::<char>::empty());
        } else {
            assert(t@.subrange(start as int, i + 1) =~= t@.subrange(start as int, i as int).push(c));
        }
        i = i + 1;
    }
    push_piece(&mut st, t.substring_char(start, len));
    assert(t@.subrange(0, len as int) =~= t@);
    st
}

proof fn lemma_scan_children(t: Seq<char>)
    ensures
        forall|k: int| 0 <= k < scan(t).0.len() ==> is_child_segment(#[trigger] scan(t).0[k]),
        forall|k: int| 0 <= k < scan(t).1.len() ==> #[trigger] scan(t).1[k] != '/',
    decreases t.len(),
{
    if t.len() > 0 {
        lemma_scan_children(t.drop_last());
        let (st, cur) = scan(t.drop_last());
        if t.last() != '/' {
            assert forall|k: int| 0 <= k < cur.push(t.last()).len() implies #[trigger] cur.push(
                t.last(),
            )[k] != '/' by {
                if k < cur.len() {
                    assert(cur.push(t.last())[k] == cur[k]);
                }
            }
        } else {
            lemma_step_children(st, cur);
        }
    }
}

proof fn lemma_step_children(st: Seq<Seq<char>>, p: Seq<char>)
    requires
        forall|k: int| 0 <= k < st.len() ==> is_child_segment(#[trigger] st[k]),
        forall|k: int| 0 <= k < p.len() ==> #[trigger] p[k] != '/',
    ensures
        forall|k: int| 0 <= k < step(st, p).len() ==> is_child_segment(#[trigger] step(st, p)[k]),
{
    let r = step(st, p);
    assert forall|k: int| 0 <= k < r.len() implies is_child_segment(#[trigger] r[k]) by {
        if k < st.len() {
            assert(r[k] == st[k]);
        }
    }
}

/// Whatever a request holds, each segment that it decodes to names a child:
/// no segment is empty, `.` or `..`, or holds a `/`, so a path made of them
/// stays below the root.
pub proof fn lemma_request_stays_below_root(req: Seq<u8>)
    ensures
        forall|k: int|
            0 <= k < request_segments(req).len() ==> is_child_segment(
                #[trigger] request_segments(req)[k],
            ),
{
    let t = utf8_lossy(percent_decoded(target_rest(req)));
    lemma_scan_children(t);
    lemma_step_children(scan(t).0, scan(t).1);
}

/// A target written with percent escapes resolves to the same segments as
/// the bytes it encodes: `/a%20b` names the child `a b`.
pub proof fn lemma_escaped_target_same_path(req: Seq<u8>, s: Seq<u8>)
    requires
        target_rest(req) == percent_encoded(s),
    ensures
        request_segments(req) == path_segments(utf8_lossy(s)),
{
    lemma_percent_round_trip(s);
}

/// Range of the request target within the first line, as byte indices.
fn target_bounds(req: &[u8]) -> (r: (usize, usize, usize))
    ensures
        r.0 == line_end(req@, 0),
        r.1 == target_start(req@),
        r.1 < r.0 ==> r.2 == token_end(req@, r.1 as nat, r.0 as nat),
        r.1 <= r.2 <= r.0 <= req@.len(),
        r.1 < r.0 ==> r.1 < r.2,
{
    let len = req.len();
    let mut n: usize = 0;
    while n < len && req[n] != 0x0a
        invariant
            n <= len == req@.len(),
            line_end(req@, n as nat) == line_end(req@, 0),
        decreases len - n,
    {
        n = n + 1;
    }
    let mut i: usize = 0;
    while i < n && is_space_byte(req[i])
        invariant
            i <= n <= len == req@.len(),
            n == line_end(req@, 0),
            skip_spaces(req@, i as nat, n as nat) == skip_spaces(req@, 0, n as nat),
        decreases n - i,
    {
        i = i + 1;
    }
    let ghost a = i;
    while i < n && !is_space_byte(req[i])
        invariant
            a <= i <= n <= len == req@.len(),
            n == line_end(req@, 0),
            a == skip_spaces(req@, 0, n as nat),
            token_end(req@, i as nat, n as nat) == token_end(req@, a as nat, n as nat),
        decreases n - i,
    {
        i = i + 1;
    }
    let ghost b = i;
    while i < n && is_space_byte(req[i])
        invariant
            b <= i <= n <= len == req@.len(),
            n == line_end(req@, 0),
            b == token_end(req@, skip_spaces(req@, 0, n as nat), n as nat),
            skip_spaces(req@, i as nat, n as nat) == skip_spaces(req@, b as nat, n as nat),
        decreases n - i,
    {
        i = i + 1;
    }
    let c = i;
    let mut e = i;
    while e < n && !is_space_byte(req[e])
        invariant
            c <= e <= n <= len == req@.len(),
            token_end(req@, e as nat, n as nat) == token_end(req@, c as nat, n as nat),
            (c < n && e == c) ==> !is_space(req@[c as int]),
        decreases n - e,
    {
        e = e + 1;
    }
    (n, c, e)
}

fn is_space_byte(b: u8) -> (r: bool)
    ensures
        r == is_space(b),
{
    b == 0x20 || (0x09 <= b && b <= 0x0d)
}

/// The target of a request with its leading byte dropped.
pub fn request_target_rest(req: &[u8]) -> (r: Vec<u8>)
    ensures
        r@ == target_rest(req@),
{
    let (n, c, e) = target_bounds(req);
    let mut out: Vec<u8> = Vec::new();
    if c < n {
        let from: usize = if req[c] == 0x2f {
            c + 1
        } else {
            c
        };
        let mut k: usize = from;
        while k < e
            invariant
                from <= k <= e <= req@.len(),
                out@ == req@.subrange(from as int, k as int),
            decreases e - k,
        {
            out.push(req[k]);
            k = k + 1;
            assert(out@ =~= req@.subrange(from as int, k as int));
        }
    }
    assert(out@ =~= target_rest(req@));
    out
}

/// Decodes the path that a request asks for: the second token of its first
/// line without its leading byte, percent-decoded, read as text with invalid
/// sequences replaced, then split into segments below the root.
pub fn extract_path(request: &[u8]) -> (r: RequestPath)
    ensures
        r@ == request_segments(request@),
        forall|t: Seq<char>|
            percent_decoded(target_rest(request@)) == encode_utf8(t) ==> r@ == path_segments(t),
        forall|t: Seq<char>|
            target_rest(request@) == percent_encoded(#[trigger] encode_utf8(t)) ==> r@
                == path_segments(t),
        r.wf(),
{
    let rest = request_target_rest(request);
    let decoded = percent_decode_bytes(rest.as_slice());
    let text = text_of_bytes_lossy(decoded.as_slice());
    let segments = segments_of_text(text.as_str());
    let r = RequestPath { segments };
    proof {
        assert forall|t: Seq<char>|
            target_rest(request@) == percent_encoded(#[trigger] encode_utf8(t)) implies r@
                == path_segments(t) by {
            lemma_percent_round_trip(encode_utf8(t));
        }
        lemma_request_stays_below_root(request@);
        assert(r@ == request_segments(request@));
        assert forall|k: int| 0 <= k < r@.len() implies is_child_segment(#[trigger] r@[k]) by {
            assert(r@[k] == request_segments(request@)[k]);
        }
    }
    r
}

/// The path of what a connection read, or nothing when it read no bytes (the
/// peer closed before sending), in which case no response is owed.
pub fn parse_request(request: &[u8]) -> (r: Option<RequestPath>)
    ensures
        r is None <==> request@.len() == 0,
        r matches Some(p) ==> p@ == request_segments(request@) && p.wf(),
{
    if request.len() == 0 {
        None
    } else {
        Some(extract_path(request))
    }
}

} // verus!
