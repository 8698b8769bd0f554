use vstd::prelude::*;

use crate::owl::protocol::{
    DecorationType, Position, Range, RustOwlCursorParams, RustOwlDecoration, TextDocumentIdentifier,
};
use crate::text::{
    chars_of, contains_chars, contains_text, decimal, has_prefix, has_prefix_chars, owned,
    parse_usize, parse_usize_chars, push_decimal, push_text, slice_chars, split_lines, text_lines,
    trim, trim_chars,
};

verus! {

/// A decoration with no hover text, not overlapped, of `kind` over the given range.
pub open spec fn plain_decoration(
    l0: u32,
    c0: u32,
    l1: u32,
    c1: u32,
    kind: DecorationType,
) -> RustOwlDecoration {
    RustOwlDecoration {
        range: Range {
            start: Position { line: l0, character: c0 },
            end: Position { line: l1, character: c1 },
        },
        kind,
        hover_text: None,
        overlapped: false,
    }
}

/// The zero-based line at which the fallback analysis starts for the one-based `line`.
pub open spec fn fallback_start(line: u32) -> u32 {
    if line > 0 {
        (line - 1) as u32
    } else {
        0
    }
}

/// `line + 10` as `u32` arithmetic wraps.
pub open spec fn ten_past(line: u32) -> u32 {
    if line <= u32::MAX - 10 {
        (line + 10) as u32
    } else {
        (line + 10 - 0x1_0000_0000) as u32
    }
}

/// The zero-based line at which the fallback analysis stops: ten lines past `line` (with
/// wrapping `u32` arithmetic), or the number of lines of the file (as a `u32`) if that is
/// smaller.
pub open spec fn fallback_end(line: u32, n_lines: nat) -> u32 {
    let a = ten_past(line);
    let b = n_lines as u32;
    if a < b {
        a
    } else {
        b
    }
}

/// The borrow that the fallback analysis reads off the text of zero-based line `l`: a
/// mutable borrow where `"&mut "` occurs, otherwise an immutable one where `'&'` occurs
/// but `"&&"` does not.
pub open spec fn line_borrow(text: Seq<char>, l: u32) -> Seq<RustOwlDecoration> {
    if contains_text(text, "&mut "@) {
        seq![plain_decoration(l, 0, (l + 1) as u32, 0, DecorationType::MutBorrow)]
    } else if contains_text(text, seq!['&']) && !contains_text(text, "&&"@) {
        seq![plain_decoration(l, 0, (l + 1) as u32, 0, DecorationType::ImmBorrow)]
    } else {
        seq![]
    }
}

/// The borrows of the lines `start` up to (not including) `l`, in order.
pub open spec fn line_borrows(lines: Seq<Seq<char>>, start: u32, l: int) -> Seq<RustOwlDecoration>
    decreases l - start,
{
    if l <= start {
        seq![]
    } else {
        line_borrows(lines, start, l - 1) + line_borrow(lines[l - 1], (l - 1) as u32)
    }
}

/// The decorations that the offline fallback analysis gives for one-based `line` of a file
/// with text `content`: the variable is taken to live from the line before `line` to ten
/// lines past it (or the end of the file), and each line of that window is searched for a
/// borrow.
pub open spec fn fallback_decorations(content: Seq<char>, line: u32) -> Seq<RustOwlDecoration> {
    let lines = text_lines(content);
    let s = fallback_start(line);
    let e = fallback_end(line, lines.len());
    seq![plain_decoration(s, 0, e, 1, DecorationType::DefinitelyLive)] + line_borrows(lines, s, e as int)
}

/// The decorations of the offline fallback analysis for one-based `line` of a file whose
/// text is `content` (used when no RustOwl language server can be started).
pub fn mock_analyze(content: &str, line: u32) -> (decorations: Vec<RustOwlDecoration>)
    ensures
        decorations@ == fallback_decorations(content@, line),
{
    let lines = split_lines(content);
    let ghost ls = text_lines(content@);
    assert(ls.len() == lines@.len());
    let start_line: u32 = if line > 0 { line - 1 } else { 0 };
    let n: usize = lines.len();
    let n32: u32 = n as u32;
    assert(n32 <= n) by (bit_vector)
        requires n32 == n as u32;
    let ten: u32 = if line <= u32::MAX - 10 { line + 10 } else { line - (u32::MAX - 9) };
    let end_line: u32 = if ten < n32 { ten } else { n32 };
    let mut decorations: Vec<RustOwlDecoration> = Vec::new();
    decorations.push(
        RustOwlDecoration::new(
            Range {
                start: Position { line: start_line, character: 0 },
                end: Position { line: end_line, character: 1 },
            },
            DecorationType::DefinitelyLive,
        ),
    );
    let mut_needle = chars_of("&mut ");
    let amp_needle: Vec<char> = vec!['&'];
    let double_needle = chars_of("&&");
    let mut l: u32 = start_line;
    assert(decorations@ =~= seq![plain_decoration(start_line, 0, end_line, 1, DecorationType::DefinitelyLive)] + line_borrows(ls, start_line, l as int));
    while l < end_line
        invariant
            start_line <= l,
            l <= end_line || l == start_line,
            end_line <= lines@.len(),
            ls == text_lines(content@),
            lines@.map_values(|v: Vec<char>| v@) == ls,
            mut_needle@ == "&mut "@,
            amp_needle@ == seq!['&'],
            double_needle@ == "&&"@,
            decorations@ == seq![plain_decoration(start_line, 0, end_line, 1, DecorationType::DefinitelyLive)]
                + line_borrows(ls, start_line, l as int),
        decreases end_line - l,
    {
        let text = &lines[l as usize];
        assert(text@ == ls[l as int]);
        let ghost pre = decorations@;
        if contains_chars(text, &mut_needle) {
            decorations.push(
                RustOwlDecoration::new(
                    Range {
                        start: Position { line: l, character: 0 },
                        end: Position { line: l + 1, character: 0 },
                    },
                    DecorationType::MutBorrow,
                ),
            );
        } else if contains_chars(text, &amp_needle) && !contains_chars(text, &double_needle) {
            decorations.push(
                RustOwlDecoration::new(
                    Range {
                        start: Position { line: l, character: 0 },
                        end: Position { line: l + 1, character: 0 },
                    },
                    DecorationType::ImmBorrow,
                ),
            );
        }
        assert(decorations@ =~= pre + line_borrow(ls[l as int], l));
        assert(line_borrows(ls, start_line, l + 1) == line_borrows(ls, start_line, l as int) + line_borrow(ls[l as int], l));
        l = l + 1;
    }
    decorations
}

/// The `file://` URI of a path written as `path_text`.
pub open spec fn file_uri_of(path_text: Seq<char>) -> Seq<char> {
    "file://"@ + path_text
}

/// The `file://` URI of a path written as `path_text`.
pub fn file_uri(path_text: &str) -> (uri: String)
    ensures
        uri@ == file_uri_of(path_text@),
{
    let mut uri = owned("file://");
    push_text(&mut uri, path_text);
    uri
}

/// The zero-based form of a one-based coordinate (0 stays 0).
pub open spec fn zero_based(n: u32) -> u32 {
    if n > 0 {
        (n - 1) as u32
    } else {
        0
    }
}

/// The parameters of a `rustowl/cursor` request for the one-based (`line`, `col`) of the
/// document at `file_uri`: the document is named both as `document` and as `textDocument`,
/// and the position is zero-based.
pub fn cursor_params(file_uri: String, line: u32, col: u32) -> (p: RustOwlCursorParams)
    ensures
        p.document.uri@ == file_uri@,
        p.text_document matches Some(d) && d.uri@ == file_uri@,
        p.position.line == zero_based(line),
        p.position.character == zero_based(col),
{
    let doc_line: u32 = if line > 0 { line - 1 } else { 0 };
    let doc_col: u32 = if col > 0 { col - 1 } else { 0 };
    let again = file_uri.clone();
    RustOwlCursorParams {
        document: TextDocumentIdentifier { uri: file_uri },
        text_document: Some(TextDocumentIdentifier { uri: again }),
        position: Position { line: doc_line, character: doc_col },
    }
}

/// The header line that announces a message body of `n` bytes.
pub open spec fn content_length_header(n: nat) -> Seq<char> {
    "Content-Length: "@ + decimal(n)
}

/// A message framed for the language server protocol: the `Content-Length` header with the
/// body's length in bytes, an empty line, then the body.
pub open spec fn framed(body: &str) -> Seq<char> {
    content_length_header(body.len() as nat) + "\r\n\r\n"@ + body@
}

/// Frames `body` (a JSON text) as a language server protocol message; the announced length
/// is the body's length in bytes.
pub fn frame_message(body: &str) -> (msg: String)
    ensures
        msg@ == framed(body),
{
    let n: usize = body.len();
    let mut msg = owned("Content-Length: ");
    push_decimal(&mut msg, n as u64);
    push_text(&mut msg, "\r\n\r\n");
    push_text(&mut msg, body);
    msg
}

/// How one header line of a language server message reads.
#[derive(Debug)]
pub enum HeaderLine {
    /// An empty (or all white space) line: the end of the headers.
    Blank,
    /// A `Content-Length:` header, with the length it gives if that is a number.
    ContentLength(Option<usize>),
    /// Any other header.
    Other,
}

/// How the header line `line` reads: blank once trimmed; a `Content-Length:` header whose
/// trimmed remainder is read as a `usize`; or another header.
pub open spec fn header_line_kind(line: Seq<char>) -> HeaderLine {
    let t = trim(line);
    if t.len() == 0 {
        HeaderLine::Blank
    } else if has_prefix(t, "Content-Length:"@) {
        HeaderLine::ContentLength(parse_usize(trim(t.skip("Content-Length:"@.len() as int))))
    } else {
        HeaderLine::Other
    }
}

/// Reads one header line of a language server message.
pub fn classify_header_line(line: &str) -> (h: HeaderLine)
    ensures
        h == header_line_kind(line@),
{
    let t = trim_chars(&chars_of(line));
    if t.len() == 0 {
        return HeaderLine::Blank;
    }
    let prefix = chars_of("Content-Length:");
    if has_prefix_chars(&t, &prefix) {
        let rest = slice_chars(&t, prefix.len(), t.len());
        assert(rest@ =~= t@.skip("Content-Length:"@.len() as int));
        HeaderLine::ContentLength(parse_usize_chars(&trim_chars(&rest)))
    } else {
        HeaderLine::Other
    }
}

/// A reply of the language server, with the fields that the client reads: the id (where it
/// is an unsigned integer), the error and the result.
pub struct LspReply<V> {
    pub id: Option<u64>,
    pub error: Option<V>,
    pub result: Option<V>,
}

/// Why reading the reply to a request failed.
pub enum ReadFailure<V> {
    /// The headers ended without a usable `Content-Length`.
    MissingContentLength,
    /// The server answered the request with an error.
    ServerError(V),
}

/// What to do next while waiting for the reply to a request.
pub enum ReadStep<V> {
    /// Read the next header line.
    NextLine,
    /// Read a message body of this many bytes.
    ReadBody(usize),
    /// The reply has arrived; its result (a missing result reads as JSON `null`).
    Reply(Option<V>),
    /// Reading the reply failed.
    Failed(ReadFailure<V>),
}

/// Waits for the reply to the request with id `expected_id`: reads header lines, then a
/// body, and skips the messages that answer other requests.
pub struct ResponseReader {
    pub expected_id: u64,
    pub content_length: Option<usize>,
}

/// The state and step after the headers end (by an empty line or the end of the stream).
pub open spec fn after_headers<V>(r: ResponseReader) -> (ResponseReader, ReadStep<V>) {
    let next = ResponseReader { expected_id: r.expected_id, content_length: None };
    match r.content_length {
        Some(n) => (next, ReadStep::ReadBody(n)),
        None => (next, ReadStep::Failed(ReadFailure::MissingContentLength)),
    }
}

/// The state and step after the header line `line`.
pub open spec fn after_line<V>(r: ResponseReader, line: Seq<char>) -> (ResponseReader, ReadStep<V>) {
    match header_line_kind(line) {
        HeaderLine::Blank => after_headers(r),
        HeaderLine::ContentLength(v) => (
            ResponseReader { expected_id: r.expected_id, content_length: v },
            ReadStep::NextLine,
        ),
        HeaderLine::Other => (r, ReadStep::NextLine),
    }
}

/// The step after a message body has been read as `reply`.
pub open spec fn after_reply<V>(r: ResponseReader, reply: LspReply<V>) -> ReadStep<V> {
    if reply.id == Some(r.expected_id) {
        match reply.error {
            Some(e) => ReadStep::Failed(ReadFailure::ServerError(e)),
            None => ReadStep::Reply(reply.result),
        }
    } else {
        ReadStep::NextLine
    }
}

impl ResponseReader {
    /// A reader that waits for the reply to request `expected_id`, at the start of a message.
    pub fn new(expected_id: u64) -> (r: Self)
        ensures
            r.expected_id == expected_id,
            r.content_length is None,
    {
        ResponseReader { expected_id, content_length: None }
    }

    /// Takes one header line.
    pub fn on_line<V>(&mut self, line: &str) -> (step: ReadStep<V>)
        ensures
            (*final(self), step) == after_line::<V>(*old(self), line@),
    {
        match classify_header_line(line) {
            HeaderLine::Blank => self.end_headers(),
            HeaderLine::ContentLength(v) => {
                self.content_length = v;
                ReadStep::NextLine
            },
            HeaderLine::Other => ReadStep::NextLine,
        }
    }

    /// The stream ended while headers were read.
    pub fn on_end_of_stream<V>(&mut self) -> (step: ReadStep<V>)
        ensures
            (*final(self), step) == after_headers::<V>(*old(self)),
    {
        self.end_headers()
    }

    fn end_headers<V>(&mut self) -> (step: ReadStep<V>)
        ensures
            (*final(self), step) == after_headers::<V>(*old(self)),
    {
        let len = self.content_length;
        self.content_length = None;
        match len {
            Some(n) => ReadStep::ReadBody(n),
            None => ReadStep::Failed(ReadFailure::MissingContentLength),
        }
    }

    /// Takes a message body, read as `reply`: the reply to the awaited request ends the wait
    /// (with its result, or its error); a message for another request is skipped.
    pub fn on_reply<V>(&self, reply: LspReply<V>) -> (step: ReadStep<V>)
        ensures
            step == after_reply(*self, reply),
    {
        let matches = match reply.id {
            Some(id) => id == self.expected_id,
            None => false,
        };
        if matches {
            match reply.error {
                Some(e) => ReadStep::Failed(ReadFailure::ServerError(e)),
                None => ReadStep::Reply(reply.result),
            }
        } else {
            ReadStep::NextLine
        }
    }
}

/// What a framed message reads back as: the header line announces a body of exactly `n`
/// bytes, and a reader that takes that header line and then the empty line that ends the
/// frame's headers goes on to read a body of `n` bytes, whatever request it waits for; a
/// body that replies to that request without an error then ends the wait with its result.
pub proof fn lemma_frame_read_back<V>(n: usize, expected_id: u64, result: Option<V>)
    ensures
        header_line_kind(content_length_header(n as nat)) == HeaderLine::ContentLength(Some(n)),
        header_line_kind(""@) == HeaderLine::Blank,
        ({
            let start = ResponseReader { expected_id, content_length: None };
            let (r1, s1) = after_line::<V>(start, content_length_header(n as nat));
            let (r2, s2) = after_line::<V>(r1, ""@);
            &&& s1 is NextLine
            &&& s2 == ReadStep::<V>::ReadBody(n)
            &&& r2 == start
            &&& after_reply(r2, LspReply { id: Some(expected_id), error: None, result }) == ReadStep::Reply(result)
        }),
        is_header_block(seq![content_length_header(n as nat)]),
        announced_length(None, seq![content_length_header(n as nat)]) == Some(n),
{
    reveal_strlit("Content-Length: ");
    reveal_strlit("Content-Length:");
    reveal_strlit("");
    crate::text::lemma_decimal_digits(n as nat);
    crate::text::lemma_parse_decimal(n);
    let d = decimal(n as nat);
    let h = content_length_header(n as nat);
    assert(h[0] == 'C');
    assert(!crate::text::is_white_space(h[0]));
    assert(crate::text::trim_start(h) == h);
    assert(h.last() == d.last());
    assert(crate::text::is_digit(d[d.len() - 1]));
    assert(!crate::text::is_white_space(h.last()));
    assert(crate::text::trim_end(h) == h);
    assert(trim(h) == h);
    assert(h.take("Content-Length:"@.len() as int) =~= "Content-Length:"@);
    let rest = h.skip("Content-Length:"@.len() as int);
    assert(rest =~= seq![' '] + d);
    assert(rest.drop_first() =~= d);
    assert(crate::text::is_digit(d[0]));
    assert(crate::text::trim_start(d) == d);
    assert(crate::text::trim_start(rest) == d);
    assert(crate::text::trim_end(d) == d);
    assert(trim(""@) =~= Seq::<char>::empty());
    assert(header_line_kind(h) == HeaderLine::ContentLength(Some(n)));
    let hs = seq![h];
    assert(hs[0] == h);
    assert(hs.drop_first() =~= Seq::<Seq<char>>::empty());
    assert(announced_length(Some(n), hs.drop_first()) == Some(n));
    assert(announced_length(None, hs) == Some(n));
    assert forall|i: int| 0 <= i < hs.len() implies !(header_line_kind(#[trigger] hs[i]) is Blank) by {
        assert(hs[i] == h);
    }
}

/// The state and step after the header lines `lines`, each taken while the reader asks for
/// the next line; the lines after the one that ends the headers are not read.
pub open spec fn after_lines<V>(r: ResponseReader, lines: Seq<Seq<char>>) -> (ResponseReader, ReadStep<V>)
    decreases lines.len(),
{
    if lines.len() == 0 {
        (r, ReadStep::NextLine)
    } else {
        let (r1, s1) = after_line::<V>(r, lines[0]);
        if s1 is NextLine {
            after_lines::<V>(r1, lines.drop_first())
        } else {
            (r1, s1)
        }
    }
}

/// The body length that the header lines `headers` announce, read in order from a reader
/// that holds `announced`: the last `Content-Length` header counts.
pub open spec fn announced_length(announced: Option<usize>, headers: Seq<Seq<char>>) -> Option<usize>
    decreases headers.len(),
{
    if headers.len() == 0 {
        announced
    } else {
        match header_line_kind(headers[0]) {
            HeaderLine::ContentLength(v) => announced_length(v, headers.drop_first()),
            _ => announced_length(announced, headers.drop_first()),
        }
    }
}

/// The header lines of one message: none of them is blank, and they announce a body length.
pub open spec fn is_header_block(headers: Seq<Seq<char>>) -> bool {
    &&& forall|i: int| 0 <= i < headers.len() ==> !(header_line_kind(#[trigger] headers[i]) is Blank)
    &&& announced_length(None, headers) is Some
}

/// The state and step after one message: its header lines, the empty line that ends them,
/// then (where the headers asked for one) its body, read as `reply`.
pub open spec fn after_frame<V>(r: ResponseReader, headers: Seq<Seq<char>>, reply: LspReply<V>) -> (ResponseReader, ReadStep<V>) {
    let (r1, s1) = after_lines::<V>(r, headers.push(""@));
    match s1 {
        ReadStep::ReadBody(_) => (r1, after_reply(r1, reply)),
        _ => (r1, s1),
    }
}

/// The step that ends the wait over the messages `frames` (each its header lines and its
/// body), with the number of messages read: a message is read only while the reader still
/// waits after the ones before it.
pub open spec fn after_frames<V>(r: ResponseReader, frames: Seq<(Seq<Seq<char>>, LspReply<V>)>) -> (ReadStep<V>, nat)
    decreases frames.len(),
{
    if frames.len() == 0 {
        (ReadStep::NextLine, 0)
    } else {
        let (r1, s1) = after_frame::<V>(r, frames[0].0, frames[0].1);
        if s1 is NextLine {
            let (s, n) = after_frames::<V>(r1, frames.drop_first());
            (s, n + 1)
        } else {
            (s1, 1)
        }
    }
}

proof fn lemma_blank_line()
    ensures
        header_line_kind(""@) == HeaderLine::Blank,
{
    reveal_strlit("");
    assert(trim(""@) =~= Seq::<char>::empty());
}

/// A block of header lines and the empty line after it leave the reader at the start of a
/// message again, asking for a body of the announced length (or failing where none was).
proof fn lemma_header_block<V>(r: ResponseReader, headers: Seq<Seq<char>>)
    requires
        forall|i: int| 0 <= i < headers.len() ==> !(header_line_kind(#[trigger] headers[i]) is Blank),
    ensures
        after_lines::<V>(r, headers.push(""@)) == after_headers::<V>(
            ResponseReader { expected_id: r.expected_id, content_length: announced_length(r.content_length, headers) },
        ),
    decreases headers.len(),
{
    lemma_blank_line();
    let lines = headers.push(""@);
    if headers.len() == 0 {
        assert(lines[0] == ""@);
        assert(r == ResponseReader { expected_id: r.expected_id, content_length: r.content_length });
    } else {
        let rest = headers.drop_first();
        assert(lines[0] == headers[0]);
        assert(lines.drop_first() =~= rest.push(""@));
        assert forall|i: int| 0 <= i < rest.len() implies !(header_line_kind(#[trigger] rest[i]) is Blank) by {
            assert(rest[i] == headers[i + 1]);
        }
        assert(!(header_line_kind(headers[0]) is Blank));
        match header_line_kind(headers[0]) {
            HeaderLine::ContentLength(v) => {
                lemma_header_block::<V>(ResponseReader { expected_id: r.expected_id, content_length: v }, rest);
            },
            _ => {
                lemma_header_block::<V>(r, rest);
            },
        }
    }
}

/// What the reader makes of a run of messages: it skips every message that answers another
/// request (or none), and the first one that answers the awaited request ends the wait with
/// its result (or with its error); the messages after it are not read.
pub proof fn lemma_reply_after_frames<V>(
    expected_id: u64,
    frames: Seq<(Seq<Seq<char>>, LspReply<V>)>,
    k: int,
)
    requires
        0 <= k < frames.len(),
        forall|i: int| 0 <= i <= k ==> is_header_block(#[trigger] frames[i].0),
        forall|i: int| 0 <= i < k ==> (#[trigger] frames[i]).1.id != Some(expected_id),
        frames[k].1.id == Some(expected_id),
    ensures
        ({
            let start = ResponseReader { expected_id, content_length: None };
            &&& frames[k].1.error is None ==> after_frames(start, frames) == (
                ReadStep::Reply(frames[k].1.result),
                (k + 1) as nat,
            )
            &&& frames[k].1.error matches Some(e) ==> after_frames(start, frames) == (
                ReadStep::<V>::Failed(ReadFailure::ServerError(e)),
                (k + 1) as nat,
            )
            &&& after_frames(start, frames) == after_frames(start, frames.take(k + 1))
        }),
    decreases k,
{
    let start = ResponseReader { expected_id, content_length: None };
    let f = frames[0];
    assert(is_header_block(frames[0].0));
    lemma_header_block::<V>(start, f.0);
    let n = announced_length(None, f.0).unwrap();
    assert(after_lines::<V>(start, f.0.push(""@)) == (start, ReadStep::<V>::ReadBody(n)));
    let front = frames.take(k + 1);
    assert(front[0] == f);
    if k == 0 {
        assert(after_frame::<V>(start, f.0, f.1) == (start, after_reply(start, f.1)));
    } else {
        assert(f.1.id != Some(expected_id));
        assert(after_frame::<V>(start, f.0, f.1) == (start, ReadStep::<V>::NextLine));
        let rest = frames.drop_first();
        assert forall|i: int| 0 <= i <= k - 1 implies is_header_block(#[trigger] rest[i].0) by {
            assert(rest[i] == frames[i + 1]);
        }
        assert forall|i: int| 0 <= i < k - 1 implies (#[trigger] rest[i]).1.id != Some(expected_id) by {
            assert(rest[i] == frames[i + 1]);
        }
        assert(rest[k - 1] == frames[k]);
        lemma_reply_after_frames::<V>(expected_id, rest, k - 1);
        assert(front.drop_first() =~= rest.take(k));
    }
}

proof fn lemma_line_borrows_only_borrows(lines: Seq<Seq<char>>, start: u32, l: int)
    ensures
        crate::analysis::report::live_span_of(line_borrows(lines, start, l)) is None,
        crate::analysis::report::moves_of(line_borrows(lines, start, l)) == Seq::<crate::analysis::report::MoveEventView>::empty(),
        crate::analysis::report::conflicts_of(line_borrows(lines, start, l)) == Seq::<crate::analysis::report::ConflictIssueView>::empty(),
    decreases l - start,
{
    let ds = line_borrows(lines, start, l);
    if l > start {
        let prev = line_borrows(lines, start, l - 1);
        lemma_line_borrows_only_borrows(lines, start, l - 1);
        let b = line_borrow(lines[l - 1], (l - 1) as u32);
        crate::analysis::report::lemma_normalize_concat(prev, b);
        assert(ds == prev + b);
        if b.len() > 0 {
            assert(b.drop_last() =~= Seq::<RustOwlDecoration>::empty());
            assert(crate::analysis::report::live_span_of(b.drop_last()) is None);
            assert(crate::analysis::report::moves_of(b.drop_last()) =~= Seq::<crate::analysis::report::MoveEventView>::empty());
            assert(crate::analysis::report::conflicts_of(b.drop_last()) =~= Seq::<crate::analysis::report::ConflictIssueView>::empty());
        }
        assert(crate::analysis::report::live_span_of(b) is None);
        assert(crate::analysis::report::moves_of(b) =~= Seq::<crate::analysis::report::MoveEventView>::empty());
        assert(crate::analysis::report::conflicts_of(b) =~= Seq::<crate::analysis::report::ConflictIssueView>::empty());
        assert(crate::analysis::report::moves_of(ds) =~= Seq::<crate::analysis::report::MoveEventView>::empty());
        assert(crate::analysis::report::conflicts_of(ds) =~= Seq::<crate::analysis::report::ConflictIssueView>::empty());
    }
}

/// The report of the offline fallback analysis: the variable is definitely live from the
/// line of the cursor (the line before it, one-based) to the end of the window, and no
/// move or conflict is ever reported, so the report never raises an alert.
pub proof fn lemma_fallback_report(file: Seq<char>, content: Seq<char>, line: u32, col: u32)
    ensures
        ({
            let r = crate::analysis::report::normalized(file, line, col, fallback_decorations(content, line));
            &&& r.live_span == Some(crate::analysis::report::LiveSpanView {
                start_line: crate::analysis::report::one_based(fallback_start(line)),
                end_line: crate::analysis::report::one_based(fallback_end(line, text_lines(content).len())),
                certainty: "definitely_live"@,
            })
            &&& r.moves.len() == 0
            &&& r.conflicts.len() == 0
            &&& r.actionable_fixes.len() == 0
        }),
{
    let lines = text_lines(content);
    let s = fallback_start(line);
    let e = fallback_end(line, lines.len());
    let first = seq![plain_decoration(s, 0, e, 1, DecorationType::DefinitelyLive)];
    let rest = line_borrows(lines, s, e as int);
    lemma_line_borrows_only_borrows(lines, s, e as int);
    crate::analysis::report::lemma_normalize_concat(first, rest);
    assert(first.drop_last() =~= Seq::<RustOwlDecoration>::empty());
    assert(crate::analysis::report::moves_of(first.drop_last()) =~= Seq::<crate::analysis::report::MoveEventView>::empty());
    assert(crate::analysis::report::conflicts_of(first.drop_last()) =~= Seq::<crate::analysis::report::ConflictIssueView>::empty());
    let ds = fallback_decorations(content, line);
    assert(ds == first + rest);
    assert(crate::analysis::report::moves_of(first) =~= Seq::<crate::analysis::report::MoveEventView>::empty());
    assert(crate::analysis::report::conflicts_of(first) =~= Seq::<crate::analysis::report::ConflictIssueView>::empty());
}

proof fn lemma_line_borrows_contains(lines: Seq<Seq<char>>, start: u32, l: int, d: RustOwlDecoration)
    requires
        start <= l <= u32::MAX,
    ensures
        line_borrows(lines, start, l).contains(d) <==> exists|m: int|
            start <= m < l && #[trigger] line_borrow(lines[m], m as u32).contains(d),
    decreases l - start,
{
    if l > start {
        lemma_line_borrows_contains(lines, start, l - 1, d);
        let prev = line_borrows(lines, start, l - 1);
        let b = line_borrow(lines[l - 1], (l - 1) as u32);
        let all = line_borrows(lines, start, l);
        assert(all == prev + b);
        if all.contains(d) {
            let i = choose|i: int| 0 <= i < all.len() && all[i] == d;
            if i < prev.len() {
                assert(prev[i] == d);
                assert(prev.contains(d));
            } else {
                assert(b[i - prev.len()] == d);
                assert(line_borrow(lines[l - 1], (l - 1) as u32).contains(d));
            }
        }
        if exists|m: int| start <= m < l && #[trigger] line_borrow(lines[m], m as u32).contains(d) {
            let m = choose|m: int| start <= m < l && #[trigger] line_borrow(lines[m], m as u32).contains(d);
            if m < l - 1 {
                assert(prev.contains(d));
                let i = choose|i: int| 0 <= i < prev.len() && prev[i] == d;
                assert(all[i] == d);
            } else {
                let i = choose|i: int| 0 <= i < b.len() && b[i] == d;
                assert(all[prev.len() + i] == d);
            }
        }
    } else {
        assert(line_borrows(lines, start, l) =~= Seq::<RustOwlDecoration>::empty());
    }
}

proof fn lemma_amp_occurs(text: Seq<char>)
    ensures
        contains_text(text, seq!['&']) <==> exists|k: int| 0 <= k < text.len() && #[trigger] text[k] == '&',
        contains_text(text, "&&"@) <==> exists|k: int|
            0 <= k < text.len() - 1 && #[trigger] text[k] == '&' && text[k + 1] == '&',
{
    reveal_strlit("&&");
    if contains_text(text, seq!['&']) {
        let i = choose|i: int| crate::text::occurs_at(text, seq!['&'], i);
        assert(text.subrange(i, i + 1)[0] == text[i]);
    }
    if exists|k: int| 0 <= k < text.len() && #[trigger] text[k] == '&' {
        let k = choose|k: int| 0 <= k < text.len() && #[trigger] text[k] == '&';
        assert(text.subrange(k, k + 1) =~= seq!['&']);
        assert(crate::text::occurs_at(text, seq!['&'], k));
    }
    if contains_text(text, "&&"@) {
        let i = choose|i: int| crate::text::occurs_at(text, "&&"@, i);
        assert(text.subrange(i, i + 2)[0] == text[i]);
        assert(text.subrange(i, i + 2)[1] == text[i + 1]);
    }
    if exists|k: int| 0 <= k < text.len() - 1 && #[trigger] text[k] == '&' && text[k + 1] == '&' {
        let k = choose|k: int| 0 <= k < text.len() - 1 && #[trigger] text[k] == '&' && text[k + 1] == '&';
        assert(text.subrange(k, k + 2) =~= "&&"@);
        assert(crate::text::occurs_at(text, "&&"@, k));
    }
}

/// Which borrows the offline fallback analysis reports on a line `l` of its window, read
/// off the line's text: a mutable borrow exactly where "&mut " occurs; otherwise an
/// immutable borrow exactly where the character '&' occurs but never twice in a row; each
/// such borrow runs from line `l` to the next.
pub proof fn lemma_fallback_borrow_lines(content: Seq<char>, line: u32, l: int)
    requires
        fallback_start(line) <= l < fallback_end(line, text_lines(content).len()),
        l < text_lines(content).len(),
    ensures
        (exists|i: int|
            0 <= i < fallback_decorations(content, line).len()
                && (#[trigger] fallback_decorations(content, line)[i]).kind == DecorationType::MutBorrow
                && fallback_decorations(content, line)[i].range.start.line == l) <==> exists|k: int|
            0 <= k && k + 5 <= text_lines(content)[l].len() && #[trigger] text_lines(content)[l].subrange(k, k + 5)
                == "&mut "@,
        (exists|i: int|
            0 <= i < fallback_decorations(content, line).len()
                && (#[trigger] fallback_decorations(content, line)[i]).kind == DecorationType::ImmBorrow
                && fallback_decorations(content, line)[i].range.start.line == l) <==> {
            &&& !exists|k: int|
                0 <= k && k + 5 <= text_lines(content)[l].len() && #[trigger] text_lines(content)[l].subrange(k, k + 5)
                    == "&mut "@
            &&& exists|k: int| 0 <= k < text_lines(content)[l].len() && #[trigger] text_lines(content)[l][k] == '&'
            &&& !exists|k: int|
                0 <= k < text_lines(content)[l].len() - 1 && #[trigger] text_lines(content)[l][k] == '&'
                    && text_lines(content)[l][k + 1] == '&'
        },
        forall|i: int|
            0 <= i < fallback_decorations(content, line).len() && ((#[trigger] fallback_decorations(content, line)[i]).kind
                == DecorationType::MutBorrow || fallback_decorations(content, line)[i].kind == DecorationType::ImmBorrow)
                && fallback_decorations(content, line)[i].range.start.line == l ==> fallback_decorations(content, line)[i].range.end.line
                == l + 1,
{
    let lines = text_lines(content);
    let text = lines[l];
    let s = fallback_start(line);
    let e = fallback_end(line, lines.len());
    let ds = fallback_decorations(content, line);
    let live = plain_decoration(s, 0, e, 1, DecorationType::DefinitelyLive);
    let lb = line_borrows(lines, s, e as int);
    assert(ds == seq![live] + lb);
    lemma_amp_occurs(text);
    let mb = plain_decoration(l as u32, 0, (l + 1) as u32, 0, DecorationType::MutBorrow);
    let ib = plain_decoration(l as u32, 0, (l + 1) as u32, 0, DecorationType::ImmBorrow);
    assert(line_borrow(text, l as u32) == if contains_text(text, "&mut "@) {
        seq![mb]
    } else if contains_text(text, seq!['&']) && !contains_text(text, "&&"@) {
        seq![ib]
    } else {
        seq![]
    });
    // Every borrow in the window belongs to the line it starts on.
    assert forall|i: int|
        0 <= i < ds.len() && ((#[trigger] ds[i]).kind == DecorationType::MutBorrow || ds[i].kind == DecorationType::ImmBorrow)
            implies lb.contains(ds[i]) && exists|m: int| s <= m < e && #[trigger] line_borrow(lines[m], m as u32).contains(ds[i]) by {
        assert(i > 0);
        assert(ds[i] == lb[i - 1]);
        lemma_line_borrows_contains(lines, s, e as int, ds[i]);
    }
    assert forall|i: int|
        0 <= i < ds.len() && ((#[trigger] ds[i]).kind == DecorationType::MutBorrow || ds[i].kind == DecorationType::ImmBorrow)
            && ds[i].range.start.line == l implies line_borrow(text, l as u32).contains(ds[i]) && ds[i].range.end.line == l + 1 by {
        let m = choose|m: int| s <= m < e && #[trigger] line_borrow(lines[m], m as u32).contains(ds[i]);
        let lbm = line_borrow(lines[m], m as u32);
        let k = choose|k: int| 0 <= k < lbm.len() && #[trigger] lbm[k] == ds[i];
        assert(ds[i].range.start.line == m);
        assert(m == l);
    }
    reveal_strlit("&mut ");
    let has_mut = exists|k: int| 0 <= k && k + 5 <= text.len() && #[trigger] text.subrange(k, k + 5) == "&mut "@;
    assert(has_mut <==> contains_text(text, "&mut "@)) by {
        if has_mut {
            let k = choose|k: int| 0 <= k && k + 5 <= text.len() && #[trigger] text.subrange(k, k + 5) == "&mut "@;
            assert(crate::text::occurs_at(text, "&mut "@, k));
        }
        if contains_text(text, "&mut "@) {
            let k = choose|k: int| crate::text::occurs_at(text, "&mut "@, k);
            assert(text.subrange(k, k + 5) == "&mut "@);
        }
    }
    // A borrow that the line's text calls for is in the window's decorations.
    let want = line_borrow(text, l as u32);
    if want.len() > 0 {
        lemma_line_borrows_contains(lines, s, e as int, want[0]);
        assert(want.contains(want[0]));
        assert(lb.contains(want[0]));
        let j = choose|j: int| 0 <= j < lb.len() && lb[j] == want[0];
        assert(ds[j + 1] == want[0]);
        assert(ds[j + 1].range.start.line == l);
    }
    // A borrow on line `l` is the one its text calls for.
    if exists|i: int|
        0 <= i < ds.len() && (#[trigger] ds[i]).kind == DecorationType::MutBorrow && ds[i].range.start.line == l {
        let i = choose|i: int|
            0 <= i < ds.len() && (#[trigger] ds[i]).kind == DecorationType::MutBorrow && ds[i].range.start.line == l;
        assert(want.contains(ds[i]));
    }
    if exists|i: int|
        0 <= i < ds.len() && (#[trigger] ds[i]).kind == DecorationType::ImmBorrow && ds[i].range.start.line == l {
        let i = choose|i: int|
            0 <= i < ds.len() && (#[trigger] ds[i]).kind == DecorationType::ImmBorrow && ds[i].range.start.line == l;
        assert(want.contains(ds[i]));
    }
}

} // verus!
