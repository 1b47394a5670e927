//! The handshake that a connection sends before anything else: lines of the
//! form `key:value`, each ended by a line feed, and a single NUL byte that ends
//! the frame. A line that is no header is skipped. A frame that never reaches
//! its NUL byte yields nothing, and a frame without the required token is
//! refused.

use crate::headers::HeaderMap;
use crate::text::{decode_text, lemma_trimmed_twice, trim, trimmed};
use vstd::prelude::*;
use vstd::slice::{slice_subrange, slice_to_vec};
use vstd::utf8::{decode_utf8, valid_utf8};

verus! {

/// The byte that ends the frame.
pub const NUL: u8 = 0;

/// The byte that ends a line.
pub const LINE_FEED: u8 = 10;

/// The byte that parts a header's key from its value.
pub const COLON: u8 = 58;

/// The key that every handshake must carry.
pub open spec fn required_key() -> Seq<char> {
    "Hello"@
}

/// The value that the required key must hold, once trimmed.
pub open spec fn required_token() -> Seq<char> {
    "GoToGroup"@
}

/// The position of the first `byte` in `bytes`, or the length of `bytes`
/// where there is none.
pub open spec fn first_position(bytes: Seq<u8>, byte: u8) -> int
    decreases bytes.len(),
{
    if bytes.len() == 0 || bytes.first() == byte {
        0
    } else {
        1 + first_position(bytes.drop_first(), byte)
    }
}

/// The header that a line carries. The line is split at its first colon; both
/// parts must be non-empty and valid UTF-8, and each is trimmed.
pub open spec fn header_of_line(line: Seq<u8>) -> Option<(Seq<char>, Seq<char>)> {
    let at: int = first_position(line, COLON);
    let key = line.subrange(0, at);
    let value = line.subrange(at + 1, line.len() as int);
    if at < line.len() && key.len() > 0 && value.len() > 0 && valid_utf8(key) && valid_utf8(
        value,
    ) {
        Some((trimmed(decode_utf8(key)), trimmed(decode_utf8(value))))
    } else {
        None
    }
}

/// The headers after a finished line: the line's header replaces what its
/// key held, and a line without a header changes nothing.
pub open spec fn with_line(headers: Map<Seq<char>, Seq<char>>, line: Seq<u8>) -> Map<
    Seq<char>,
    Seq<char>,
> {
    match header_of_line(line) {
        Some((key, value)) => headers.insert(key, value),
        None => headers,
    }
}

/// What a parser knows in the middle of a frame.
pub ghost struct Progress {
    /// The headers of the lines that have ended.
    pub headers: Map<Seq<char>, Seq<char>>,
    /// The bytes of the line that has not ended yet.
    pub line: Seq<u8>,
    /// Whether the NUL byte has been seen.
    pub complete: bool,
}

/// The progress before any byte.
pub open spec fn start() -> Progress {
    Progress { headers: Map::empty(), line: Seq::empty(), complete: false }
}

/// The progress after one more byte. Nothing changes once the frame is
/// complete.
pub open spec fn step(before: Progress, byte: u8) -> Progress {
    if before.complete {
        before
    } else if byte == NUL {
        Progress { complete: true, ..before }
    } else if byte == LINE_FEED {
        Progress { headers: with_line(before.headers, before.line), line: Seq::empty(), ..before }
    } else {
        Progress { line: before.line.push(byte), ..before }
    }
}

/// The progress after all of `bytes`, in order.
pub open spec fn run(before: Progress, bytes: Seq<u8>) -> Progress
    decreases bytes.len(),
{
    if bytes.len() == 0 {
        before
    } else {
        step(run(before, bytes.drop_last()), bytes.last())
    }
}

/// The headers of a frame, or nothing where the bytes hold no NUL byte.
pub open spec fn handshake_headers(bytes: Seq<u8>) -> Option<Map<Seq<char>, Seq<char>>> {
    let end = run(start(), bytes);
    if end.complete {
        Some(end.headers)
    } else {
        None
    }
}

/// Whether the headers carry the required key with the required token.
pub open spec fn authorized(headers: Map<Seq<char>, Seq<char>>) -> bool {
    headers.contains_key(required_key()) && trimmed(headers[required_key()]) == required_token()
}

/// The first position is where the byte first stands: it lies within the
/// bytes or at their end, no earlier position holds the byte, and where it
/// lies within, it holds the byte.
pub proof fn lemma_first_position(bytes: Seq<u8>, byte: u8)
    ensures
        0 <= first_position(bytes, byte) <= bytes.len(),
        first_position(bytes, byte) < bytes.len() ==> bytes[first_position(bytes, byte)] == byte,
        forall|at: int| 0 <= at < first_position(bytes, byte) ==> bytes[at] != byte,
        first_position(bytes, byte) < bytes.len() <==> bytes.contains(byte),
    decreases bytes.len(),
{
    if bytes.len() > 0 && bytes.first() != byte {
        let rest = bytes.drop_first();
        lemma_first_position(rest, byte);
        assert forall|at: int| 0 <= at < first_position(bytes, byte) implies bytes[at]
            != byte by {
            if at > 0 {
                assert(bytes[at] == rest[at - 1]);
            }
        }
        if bytes.contains(byte) {
            let at: int = choose|at: int| 0 <= at < bytes.len() && bytes[at] == byte;
            assert(rest[at - 1] == byte);
        }
        if rest.contains(byte) {
            assert(bytes[first_position(bytes, byte)] == rest[first_position(rest, byte)]);
        }
    } else if bytes.len() > 0 {
        assert(bytes[0] == byte);
    }
}

/// Taking two runs of bytes one after the other is taking them as one run.
pub proof fn lemma_run_in_parts(before: Progress, first: Seq<u8>, second: Seq<u8>)
    ensures
        run(before, first + second) == run(run(before, first), second),
    decreases second.len(),
{
    if second.len() > 0 {
        lemma_run_in_parts(before, first, second.drop_last());
        assert((first + second).drop_last() =~= first + second.drop_last());
    } else {
        assert(first + second =~= first);
    }
}

/// Once the frame is complete, no further byte changes anything.
pub proof fn lemma_complete_is_final(before: Progress, bytes: Seq<u8>)
    requires
        before.complete,
    ensures
        run(before, bytes) == before,
    decreases bytes.len(),
{
    if bytes.len() > 0 {
        lemma_complete_is_final(before, bytes.drop_last());
    }
}

/// Bytes that hold neither a NUL byte nor a line feed only make the line
/// longer.
pub proof fn lemma_run_within_line(before: Progress, bytes: Seq<u8>)
    requires
        !before.complete,
        !bytes.contains(NUL),
        !bytes.contains(LINE_FEED),
    ensures
        run(before, bytes) == (Progress { line: before.line + bytes, ..before }),
    decreases bytes.len(),
{
    if bytes.len() > 0 {
        let shorter = bytes.drop_last();
        assert forall|byte: u8| shorter.contains(byte) implies bytes.contains(byte) by {
            let at: int = choose|at: int| 0 <= at < shorter.len() && shorter[at] == byte;
            assert(bytes[at] == byte);
        }
        assert(bytes[bytes.len() - 1] == bytes.last());
        lemma_run_within_line(before, shorter);
        assert((before.line + shorter).push(bytes.last()) =~= before.line + bytes);
    } else {
        assert(before.line + bytes =~= before.line);
    }
}

/// A handshake yields headers exactly when its bytes hold a NUL byte: a
/// frame that is cut short yields nothing, however many headers it held.
pub proof fn lemma_complete_iff_terminated(bytes: Seq<u8>)
    ensures
        handshake_headers(bytes) is Some <==> bytes.contains(NUL),
    decreases bytes.len(),
{
    if bytes.len() > 0 {
        let shorter = bytes.drop_last();
        lemma_complete_iff_terminated(shorter);
        if shorter.contains(NUL) {
            let at: int = choose|at: int| 0 <= at < shorter.len() && shorter[at] == NUL;
            assert(bytes[at] == NUL);
        } else if bytes.contains(NUL) {
            let at: int = choose|at: int| 0 <= at < bytes.len() && bytes[at] == NUL;
            if at < shorter.len() {
                assert(shorter[at] == NUL);
            }
        } else {
            assert(bytes[bytes.len() - 1] != NUL);
        }
    }
}

/// What follows the NUL byte is not part of the handshake: the headers of a
/// complete frame stay what they are, whatever bytes come after it.
pub proof fn lemma_rest_is_ignored(frame: Seq<u8>, rest: Seq<u8>)
    requires
        handshake_headers(frame) is Some,
    ensures
        handshake_headers(frame + rest) == handshake_headers(frame),
{
    lemma_run_in_parts(start(), frame, rest);
    lemma_complete_is_final(run(start(), frame), rest);
}

/// Every key and every value is held without white space around it.
pub open spec fn bare(headers: Map<Seq<char>, Seq<char>>) -> bool {
    forall|key: Seq<char>| #[trigger]
        headers.contains_key(key) ==> trimmed(key) == key && trimmed(headers[key]) == headers[key]
}

/// Headers are held trimmed, at every point of a frame.
pub proof fn lemma_headers_stay_bare(before: Progress, bytes: Seq<u8>)
    requires
        bare(before.headers),
    ensures
        bare(run(before, bytes).headers),
    decreases bytes.len(),
{
    if bytes.len() > 0 {
        lemma_headers_stay_bare(before, bytes.drop_last());
        let reached = run(before, bytes.drop_last());
        if let Some((key, value)) = header_of_line(reached.line) {
            let at: int = first_position(reached.line, COLON);
            lemma_trimmed_twice(decode_utf8(reached.line.subrange(0, at)));
            lemma_trimmed_twice(
                decode_utf8(reached.line.subrange(at + 1, reached.line.len() as int)),
            );
        }
    }
}

/// The token is compared as it is held: for the headers of a frame, to be
/// authorized is to hold exactly the required token under the required key.
pub proof fn lemma_token_is_held_bare(bytes: Seq<u8>)
    ensures
        handshake_headers(bytes) matches Some(headers) ==> bare(headers) && (authorized(headers)
            <==> headers.contains_key(required_key()) && headers[required_key()]
            == required_token()),
{
    lemma_headers_stay_bare(start(), bytes);
}

/// A line that ends is recorded: where a frame ends with a line and the NUL
/// byte, its headers are those of the bytes before the line, with the line's
/// header in place of what its key held. The line stands where a line may
/// begin, and the frame holds no earlier NUL byte.
pub proof fn lemma_line_is_recorded(before: Seq<u8>, line: Seq<u8>)
    requires
        before.len() == 0 || before.last() == LINE_FEED,
        !before.contains(NUL),
        !line.contains(NUL),
        !line.contains(LINE_FEED),
    ensures
        handshake_headers(before + line.push(LINE_FEED).push(NUL)) == Some(
            with_line(run(start(), before).headers, line),
        ),
{
    let reached = run(start(), before);
    let ended = line.push(LINE_FEED);
    lemma_complete_iff_terminated(before);
    lemma_run_in_parts(start(), before, ended.push(NUL));
    lemma_run_within_line(reached, line);
    assert(reached.line + line =~= line);
    assert(ended.drop_last() =~= line);
    assert(ended.push(NUL).drop_last() =~= ended);
    assert(run(reached, ended) == step(run(reached, line), LINE_FEED));
}

/// A line that carries no header is skipped: a frame has the same headers
/// with the line as without it. The line stands where a line may begin, and
/// holds neither a NUL byte nor a line feed of its own.
pub proof fn lemma_malformed_line_is_skipped(before: Seq<u8>, line: Seq<u8>, after: Seq<u8>)
    requires
        before.len() == 0 || before.last() == LINE_FEED,
        !line.contains(NUL),
        !line.contains(LINE_FEED),
        header_of_line(line) is None,
    ensures
        handshake_headers(before + line.push(LINE_FEED) + after) == handshake_headers(
            before + after,
        ),
{
    let reached = run(start(), before);
    let ended = line.push(LINE_FEED);
    lemma_run_in_parts(start(), before + ended, after);
    lemma_run_in_parts(start(), before, ended);
    lemma_run_in_parts(start(), before, after);
    if reached.complete {
        lemma_complete_is_final(reached, ended);
    } else {
        lemma_run_within_line(reached, line);
        assert(reached.line + line =~= line);
        assert(ended.drop_last() =~= line);
        assert(run(reached, ended) == reached);
    }
}

/// Why a handshake did not let the connection in.
#[derive(Clone, Copy, Debug, PartialEq, Eq)]
pub enum HandshakeFailure {
    /// The bytes ended before the NUL byte.
    Unterminated,
    /// The required key is missing or holds another value.
    Unauthorized,
}

/// A parser that takes the frame one byte at a time, as a socket hands it
/// over.
pub struct HandshakeParser {
    headers: HeaderMap,
    line: Vec<u8>,
    complete: bool,
}

impl View for HandshakeParser {
    type V = Progress;

    closed spec fn view(&self) -> Progress {
        Progress { headers: self.headers@, line: self.line@, complete: self.complete }
    }
}

impl HandshakeParser {
    /// A parser that has seen no byte.
    pub fn new() -> (parser: Self)
        ensures
            parser@ == start(),
    {
        HandshakeParser { headers: HeaderMap::new(), line: Vec::new(), complete: false }
    }

    /// Takes the next byte, and says whether the frame is complete.
    pub fn feed(&mut self, byte: u8) -> (complete: bool)
        ensures
            final(self)@ == step(old(self)@, byte),
            complete == final(self)@.complete,
    {
        if self.complete {
            return true;
        }
        if byte == NUL {
            self.complete = true;
            return true;
        }
        if byte == LINE_FEED {
            record_line(&mut self.headers, self.line.as_slice());
            self.line.clear();
        } else {
            self.line.push(byte);
        }
        false
    }

    /// Whether the NUL byte has been seen.
    pub fn is_complete(&self) -> (complete: bool)
        ensures
            complete == self@.complete,
    {
        self.complete
    }

    /// The headers of the frame, once it is complete.
    pub fn finish(self) -> (headers: Option<HeaderMap>)
        ensures
            headers is Some <==> self@.complete,
            headers matches Some(map) ==> map@ == self@.headers,
    {
        if self.complete {
            Some(self.headers)
        } else {
            None
        }
    }
}

/// The position of the first `byte` in `bytes`, or the length of `bytes`.
pub fn find_first(bytes: &[u8], byte: u8) -> (at: usize)
    ensures
        at == first_position(bytes@, byte),
        at <= bytes@.len(),
{
    let mut at: usize = 0;
    proof {
        assert(bytes@.subrange(0, bytes@.len() as int) == bytes@);
    }
    while at < bytes.len() && bytes[at] != byte
        invariant
            at <= bytes@.len(),
            first_position(bytes@, byte) == at + first_position(
                bytes@.subrange(at as int, bytes@.len() as int),
                byte,
            ),
        decreases bytes@.len() - at,
    {
        proof {
            let rest = bytes@.subrange(at as int, bytes@.len() as int);
            assert(rest.drop_first() == bytes@.subrange(at + 1, bytes@.len() as int));
        }
        at += 1;
    }
    at
}

/// Records the header of a finished line, if the line carries one.
pub fn record_line(headers: &mut HeaderMap, line: &[u8])
    ensures
        final(headers)@ == with_line(old(headers)@, line@),
{
    let at: usize = find_first(line, COLON);
    if at >= line.len() || at == 0 || at + 1 >= line.len() {
        return ;
    }
    let key_bytes = slice_to_vec(slice_subrange(line, 0, at));
    let value_bytes = slice_to_vec(slice_subrange(line, at + 1, line.len()));
    match decode_text(key_bytes) {
        Some(key) => match decode_text(value_bytes) {
            Some(value) => {
                headers.insert(trim(key.as_str()).to_owned(), trim(value.as_str()).to_owned());
            },
            None => {},
        },
        None => {},
    }
}

/// Reads a whole frame. The headers are those of the lines before the first
/// NUL byte; what follows that byte is not looked at.
pub fn parse_handshake(bytes: &[u8]) -> (headers: Option<HeaderMap>)
    ensures
        headers is Some <==> handshake_headers(bytes@) is Some,
        headers matches Some(map) ==> Some(map@) == handshake_headers(bytes@),
{
    let mut parser = HandshakeParser::new();
    let mut at: usize = 0;
    while at < bytes.len()
        invariant
            at <= bytes@.len(),
            parser@ == run(start(), bytes@.subrange(0, at as int)),
        decreases bytes@.len() - at,
    {
        proof {
            let seen = bytes@.subrange(0, at + 1);
            assert(seen.drop_last() == bytes@.subrange(0, at as int));
        }
        parser.feed(bytes[at]);
        at += 1;
    }
    proof {
        assert(bytes@.subrange(0, bytes@.len() as int) == bytes@);
    }
    parser.finish()
}

/// Whether the headers carry the required key with the required token.
pub fn is_authorized(headers: &HeaderMap) -> (ok: bool)
    ensures
        ok == authorized(headers@),
{
    match headers.get("Hello") {
        Some(value) => {
            let bare = trim(value.as_str()).to_owned();
            let token = "GoToGroup".to_owned();
            bare == token
        },
        None => false,
    }
}

/// Reads a whole frame and lets it pass only with the required token.
pub fn handshake(bytes: &[u8]) -> (outcome: Result<HeaderMap, HandshakeFailure>)
    ensures
        match outcome {
            Ok(headers) => handshake_headers(bytes@) == Some(headers@) && authorized(headers@),
            Err(HandshakeFailure::Unterminated) => handshake_headers(bytes@) is None,
            Err(HandshakeFailure::Unauthorized) => handshake_headers(bytes@) matches Some(found)
                && !authorized(found),
        },
{
    match parse_handshake(bytes) {
        None => Err(HandshakeFailure::Unterminated),
        Some(headers) => {
            if is_authorized(&headers) {
                Ok(headers)
            } else {
                Err(HandshakeFailure::Unauthorized)
            }
        },
    }
}

} // verus!
