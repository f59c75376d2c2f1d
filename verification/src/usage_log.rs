//! The log of a session: JSON lines in a zstd stream, of which the final messages of the
//! assistant say how many tokens were used.

use vstd::prelude::*;

use crate::counts;
use crate::counts::Counts;
use crate::json;
use crate::json::Json;
use crate::json::JsonView;
use crate::text;

verus! {

/// What came out of a zstd stream.
pub enum Unpacked {
    /// No decoder could be made, for the reason given.
    NotStarted(String),
    /// The stream was read to its end.
    Ended(Vec<u8>),
    /// Reading failed after these bytes, for the reason given.
    Broken(Vec<u8>, String),
}

/// zstd's decoder.
#[verifier::external_type_specification]
#[verifier::external_body]
#[verifier::reject_recursive_types(R)]
pub struct ExDecoder<'a, R>(zstd::stream::read::Decoder<'a, R>);

/// The buffer through which the decoder takes its input.
#[verifier::external_type_specification]
#[verifier::external_body]
#[verifier::reject_recursive_types(R)]
pub struct ExBufReader<R: ?Sized>(std::io::BufReader<R>);

/// The room that a log is read with, which is that of a buffered reader.
pub const LOG_ROOM: usize = 8192;

/// What zstd's decoder gives of a stream when it is read with so much room time after time:
/// the bytes, and why it fails behind them, nothing where the stream ends. The room matters
/// where a stream is damaged: what a failing read had decoded is lost.
pub uninterp spec fn zstd_stream(data: Seq<u8>, room: nat) -> (Seq<u8>, Option<Seq<char>>);

/// What a decoder still gives when it is read with so much room time after time: the bytes,
/// and why it fails behind them, nothing where the stream ends.
pub uninterp spec fn stream_left(
    decoder: zstd::stream::read::Decoder<'_, std::io::BufReader<&[u8]>>,
    room: nat,
) -> (Seq<u8>, Option<Seq<char>>);

/// Calls `zstd::stream::read::Decoder::new`, which makes a decoder on all data: it sets up a
/// fresh context with an empty dictionary, which does not fail. What the decoder gives is a
/// function of the data and of the room that each read has.
#[verifier::external_body]
fn open_stream<'a>(data: &'a [u8]) -> (r: Result<
    zstd::stream::read::Decoder<'static, std::io::BufReader<&'a [u8]>>,
    String,
>)
    ensures
        r matches Ok(d) && forall|room: nat|
            room > 0 ==> #[trigger] stream_left(d, room) == zstd_stream(data@, room),
{
    zstd::stream::read::Decoder::new(data).map_err(|e| e.to_string())
}

/// Calls `read` of `zstd::stream::read::Decoder` with so much room: it gives the next bytes,
/// none only where the stream is at its end, and fails only where no bytes are left before
/// the failure.
#[verifier::external_body]
fn read_stream<'a>(
    decoder: &mut zstd::stream::read::Decoder<'static, std::io::BufReader<&'a [u8]>>,
    room: usize,
) -> (r: Result<Vec<u8>, String>)
    requires
        room > 0,
    ensures
        match r {
            Ok(v) => {
                let before = stream_left(*old(decoder), room as nat);
                let after = stream_left(*final(decoder), room as nat);
                &&& v@.len() <= room
                &&& v@.len() == 0 ==> before == (Seq::<u8>::empty(), None::<Seq<char>>)
                &&& v@.len() > 0 ==> before == (v@ + after.0, after.1)
            },
            Err(e) => stream_left(*old(decoder), room as nat) == (Seq::<u8>::empty(), Some(e@)),
        },
{
    let mut buf = vec![0u8; room];
    match std::io::Read::read(decoder, &mut buf) {
        Ok(n) => {
            buf.truncate(n);
            Ok(buf)
        },
        Err(e) => Err(e.to_string()),
    }
}

/// Reads a zstd stream to its end, or up to where it fails.
pub fn unpack(data: &[u8]) -> (r: Unpacked)
    ensures
        match r {
            Unpacked::NotStarted(_) => false,
            Unpacked::Ended(out) => zstd_stream(data@, LOG_ROOM as nat) == (
                out@,
                None::<Seq<char>>,
            ),
            Unpacked::Broken(out, e) => zstd_stream(data@, LOG_ROOM as nat) == (
                out@,
                Some(e@),
            ),
        },
{
    let mut decoder = match open_stream(data) {
        Ok(d) => d,
        Err(e) => {
            return Unpacked::NotStarted(e);
        },
    };
    let ghost whole = zstd_stream(data@, LOG_ROOM as nat);
    let mut out: Vec<u8> = Vec::new();
    assert(out@ + whole.0 == whole.0);
    assert(stream_left(decoder, LOG_ROOM as nat) == whole);
    loop
        invariant
            whole == zstd_stream(data@, LOG_ROOM as nat),
            whole == (
                out@ + stream_left(decoder, LOG_ROOM as nat).0,
                stream_left(decoder, LOG_ROOM as nat).1,
            ),
        decreases stream_left(decoder, LOG_ROOM as nat).0.len(),
    {
        let ghost left = stream_left(decoder, LOG_ROOM as nat);
        match read_stream(&mut decoder, LOG_ROOM) {
            Ok(v) => {
                if v.len() == 0 {
                    assert(out@ + left.0 == out@);
                    return Unpacked::Ended(out);
                }
                let ghost before = out@;
                let mut v = v;
                let ghost more = v@;
                out.append(&mut v);
                assert(before + left.0 == out@ + stream_left(decoder, LOG_ROOM as nat).0) by {
                    assert(before + (more + stream_left(decoder, LOG_ROOM as nat).0) == before
                        + more + stream_left(decoder, LOG_ROOM as nat).0);
                }
            },
            Err(e) => {
                assert(out@ + left.0 == out@);
                return Unpacked::Broken(out, e);
            },
        }
    }
}

/// Calls `String::from_utf8`: the text that the bytes encode, nothing where they are not
/// valid UTF-8.
#[verifier::external_body]
fn utf8_text(bytes: Vec<u8>) -> (r: Option<String>)
    ensures
        match r {
            Some(s) => vstd::utf8::valid_utf8(bytes@) && s@ == vstd::utf8::decode_utf8(bytes@),
            None => !vstd::utf8::valid_utf8(bytes@),
        },
{
    String::from_utf8(bytes).ok()
}

/// The number of bytes in front of the first line break; all of them where there is none.
pub open spec fn break_at(s: Seq<u8>) -> int
    decreases s.len(),
{
    if s.len() == 0 || s[0] == 10 {
        0
    } else {
        1 + break_at(s.skip(1))
    }
}

pub proof fn lemma_break_at(s: Seq<u8>)
    ensures
        0 <= break_at(s) <= s.len(),
        forall|i: int| 0 <= i < break_at(s) ==> s[i] != 10,
        break_at(s) < s.len() ==> s[break_at(s)] == 10,
    decreases s.len(),
{
    if s.len() > 0 && s[0] != 10 {
        lemma_break_at(s.skip(1));
        assert forall|i: int| 0 <= i < break_at(s) implies s[i] != 10 by {
            if i > 0 {
                assert(s[i] == s.skip(1)[i - 1]);
            }
        }
    }
}

/// A line in front of a line break, without the carriage return that may stand there.
pub open spec fn ended_line(s: Seq<u8>) -> Seq<u8> {
    if s.len() > 0 && s.last() == 13 {
        s.drop_last()
    } else {
        s
    }
}

/// The lines of some bytes, without their line breaks.
pub open spec fn byte_lines(s: Seq<u8>) -> Seq<Seq<u8>>
    decreases s.len(),
{
    if s.len() == 0 {
        Seq::empty()
    } else {
        proof {
            lemma_break_at(s);
        }
        let n = break_at(s);
        if n < s.len() {
            seq![ended_line(s.take(n))] + byte_lines(s.skip(n + 1))
        } else {
            seq![s]
        }
    }
}

/// The bytes up to the last line break.
pub open spec fn ended_part(s: Seq<u8>) -> Seq<u8>
    decreases s.len(),
{
    if s.len() == 0 || s.last() == 10 {
        s
    } else {
        ended_part(s.drop_last())
    }
}

pub open spec fn all_utf8(ls: Seq<Seq<u8>>) -> bool {
    forall|i: int| 0 <= i < ls.len() ==> vstd::utf8::valid_utf8(#[trigger] ls[i])
}

/// The tokens that one message used, of which model.
pub struct UsageView {
    pub counts: counts::CountsView,
    pub model: Option<Seq<char>>,
}

/// What a line of the log says: where the session runs, and what a final message used.
pub struct LineView {
    pub cwd: Option<Seq<char>>,
    pub usage: Option<UsageView>,
}

/// The tokens that one message used, of which model.
pub struct LogUsage {
    pub counts: Counts,
    pub model: Option<String>,
}

/// What a line of the log says: where the session runs, and what a final message used.
pub struct LogLine {
    pub cwd: Option<String>,
    pub usage: Option<LogUsage>,
}

pub open spec fn text_view(s: Option<String>) -> Option<Seq<char>> {
    match s {
        Some(t) => Some(t@),
        None => None,
    }
}

impl View for LogUsage {
    type V = UsageView;

    open spec fn view(&self) -> UsageView {
        UsageView { counts: self.counts@, model: text_view(self.model) }
    }
}

impl View for LogLine {
    type V = LineView;

    open spec fn view(&self) -> LineView {
        LineView {
            cwd: text_view(self.cwd),
            usage: match self.usage {
                Some(u) => Some(u@),
                None => None,
            },
        }
    }
}

/// A count that a message gives under `key`, 0 where it gives none.
pub open spec fn token_count(usage: JsonView, key: Seq<char>) -> nat {
    match json::u64_of(json::field(usage, key)) {
        Some(n) => n as nat,
        None => 0,
    }
}

/// What a line says. Only final messages count: the chunks of a message repeat what it
/// used.
pub open spec fn line_of(v: JsonView) -> LineView {
    let data = json::field(v, "data"@);
    let source = json::field_of(json::field_of(data, "message"@), "source"@);
    LineView {
        cwd: json::str_of(json::field(v, "cwd"@)),
        usage: if json::str_of(json::field(v, "type"@)) != Some("assistant/message"@) {
            None
        } else {
            match json::field_of(data, "usage"@) {
                Some(u) => Some(
                    UsageView {
                        counts: counts::CountsView {
                            input: token_count(u, "inputTokens"@),
                            output: token_count(u, "outputTokens"@),
                            cache_read: token_count(u, "cacheReadTokens"@),
                            reasoning: token_count(u, "reasoningTokens"@),
                            calls: 1,
                        },
                        model: json::str_of(json::field_of(source, "model"@)),
                    },
                ),
                None => None,
            }
        },
    }
}

/// What the lines of a log say, leaving out those that are blank or no JSON.
pub open spec fn log_of(ls: Seq<Seq<u8>>) -> Seq<LineView>
    decreases ls.len(),
{
    if ls.len() == 0 {
        Seq::empty()
    } else {
        let rest = log_of(ls.drop_last());
        let t = vstd::utf8::decode_utf8(ls.last());
        match json::json_text(t) {
            Some(v) => if text::blank(t) {
                rest
            } else {
                rest.push(line_of(v))
            },
            None => rest,
        }
    }
}

/// What a log says whose stream gives these bytes and ends, or fails behind them for the
/// reason given. A line that is not valid UTF-8 comes before a later failure of the stream;
/// a line that the failure cuts off is not looked at.
pub open spec fn stream_read(out: Seq<u8>, end: Option<Seq<char>>) -> Result<
    Seq<LineView>,
    Seq<char>,
> {
    let ls = byte_lines(
        if end is Some {
            ended_part(out)
        } else {
            out
        },
    );
    if !all_utf8(ls) {
        Err("stream did not contain valid UTF-8"@)
    } else {
        match end {
            Some(e) => Err(e),
            None => Ok(log_of(ls)),
        }
    }
}

/// What a log says, or why it cannot be read.
pub open spec fn log_read(u: Unpacked) -> Result<Seq<LineView>, Seq<char>> {
    match u {
        Unpacked::NotStarted(e) => Err("zstd 解压失败: "@ + e@),
        Unpacked::Ended(b) => stream_read(b@, None),
        Unpacked::Broken(b, e) => stream_read(b@, Some(e@)),
    }
}

/// What the lines say.
pub open spec fn lines_view(v: Seq<LogLine>) -> Seq<LineView> {
    v.map_values(|l: LogLine| l@)
}

fn count_of(usage: Option<&Json>, key: &str) -> (r: u64)
    requires
        usage is Some,
    ensures
        r == token_count(json::viewed(usage)->0, key@),
{
    match json::as_u64(json::get(usage, key)) {
        Some(n) => n,
        None => 0,
    }
}

fn owned(s: Option<&str>) -> (r: Option<String>)
    ensures
        match s {
            Some(t) => text_view(r) == Some(t@),
            None => r is None,
        },
{
    match s {
        Some(t) => Some(t.to_owned()),
        None => None,
    }
}

/// What a line of the log says.
pub fn log_line(v: &Json) -> (r: LogLine)
    ensures
        r@ == line_of(v@),
{
    let cwd = owned(json::as_str(json::get(Some(v), "cwd")));
    let is_message = match json::as_str(json::get(Some(v), "type")) {
        Some(t) => text::same_text(t, "assistant/message"),
        None => false,
    };
    if !is_message {
        return LogLine { cwd, usage: None };
    }
    let data = json::get(Some(v), "data");
    let usage = json::get(data, "usage");
    if usage.is_none() {
        return LogLine { cwd, usage: None };
    }
    let source = json::get(json::get(data, "message"), "source");
    let model = owned(json::as_str(json::get(source, "model")));
    let counts = Counts {
        input: count_of(usage, "inputTokens"),
        output: count_of(usage, "outputTokens"),
        cache_read: count_of(usage, "cacheReadTokens"),
        reasoning: count_of(usage, "reasoningTokens"),
        calls: 1,
    };
    LogLine { cwd, usage: Some(LogUsage { counts, model }) }
}

/// The next line of `b` from `from` on: where it ends without its line break, and where
/// the one behind it starts.
fn next_line(b: &Vec<u8>, from: usize, to: usize) -> (r: (usize, usize))
    requires
        from < to <= b.len(),
    ensures
        from <= r.0 <= r.1 <= to,
        from < r.1,
        byte_lines(b@.subrange(from as int, to as int)) == seq![
            b@.subrange(from as int, r.0 as int),
        ] + byte_lines(b@.subrange(r.1 as int, to as int)),
{
    let ghost s = b@.subrange(from as int, to as int);
    let mut i: usize = from;
    assert(s.skip(0) == s);
    while i < to && b[i] != 10
        invariant
            from <= i <= to <= b.len(),
            s == b@.subrange(from as int, to as int),
            break_at(s) == (i - from) + break_at(s.skip(i - from)),
        decreases to - i,
    {
        proof {
            let t = s.skip(i - from);
            assert(t[0] == b@[i as int]);
            assert(t.skip(1) == s.skip(i - from + 1));
        }
        i += 1;
    }
    if i == to {
        proof {
            assert(s.skip(i - from).len() == 0);
            assert(b@.subrange(to as int, to as int).len() == 0);
            assert(byte_lines(b@.subrange(to as int, to as int)).len() == 0);
            assert(seq![s] + byte_lines(b@.subrange(to as int, to as int)) == seq![s]);
        }
        return (to, to);
    }
    proof {
        assert(s.skip(i - from)[0] == b@[i as int]);
        assert(break_at(s) == i - from);
        assert(s.take(i - from) == b@.subrange(from as int, i as int));
        assert(s.skip(i - from + 1) == b@.subrange(i + 1, to as int));
    }
    if i > from && b[i - 1] == 13 {
        assert(b@.subrange(from as int, i as int).drop_last() == b@.subrange(
            from as int,
            i - 1,
        ));
        (i - 1, i + 1)
    } else {
        (i, i + 1)
    }
}

fn bytes_part(b: &Vec<u8>, from: usize, to: usize) -> (r: Vec<u8>)
    requires
        from <= to <= b.len(),
    ensures
        r@ == b@.subrange(from as int, to as int),
{
    let mut out: Vec<u8> = Vec::new();
    let mut i: usize = from;
    while i < to
        invariant
            from <= i <= to <= b.len(),
            out@ == b@.subrange(from as int, i as int),
        decreases to - i,
    {
        out.push(b[i]);
        i += 1;
    }
    out
}

/// What the lines up to `to` say, nothing where one is not valid UTF-8.
fn read_lines(b: &Vec<u8>, to: usize) -> (r: Option<Vec<LogLine>>)
    requires
        to <= b.len(),
    ensures
        r is Some <==> all_utf8(byte_lines(b@.take(to as int))),
        r matches Some(v) ==> lines_view(v@) == log_of(byte_lines(b@.take(to as int))),
{
    let ghost all = byte_lines(b@.take(to as int));
    let ghost mut done = Seq::<Seq<u8>>::empty();
    let mut out: Vec<LogLine> = Vec::new();
    let mut from: usize = 0;
    proof {
        assert(b@.take(to as int) == b@.subrange(0, to as int));
        assert(all == done + byte_lines(b@.subrange(0, to as int)));
        assert(lines_view(out@) == log_of(done));
    }
    while from < to
        invariant
            from <= to <= b.len(),
            all == byte_lines(b@.take(to as int)),
            all == done + byte_lines(b@.subrange(from as int, to as int)),
            all_utf8(done),
            lines_view(out@) == log_of(done),
        decreases to - from,
    {
        let (end, next) = next_line(b, from, to);
        let ghost line = b@.subrange(from as int, end as int);
        let ghost rest = byte_lines(b@.subrange(next as int, to as int));
        proof {
            assert(all == done + (seq![line] + rest));
            assert(all == done.push(line) + rest);
        }
        match utf8_text(bytes_part(b, from, end)) {
            Some(t) => {
                let ghost was = out@;
                if !text::is_blank(t.as_str()) {
                    match json::parse(t.as_str()) {
                        Some(v) => {
                            out.push(log_line(&v));
                            proof {
                                assert(lines_view(out@) == lines_view(was).push(line_of(v@)));
                            }
                        },
                        None => {},
                    }
                }
                proof {
                    let now = done.push(line);
                    assert(now.drop_last() == done);
                    assert(now.last() == line);
                    assert(lines_view(out@) == log_of(now));
                    assert forall|i: int| 0 <= i < now.len() implies vstd::utf8::valid_utf8(
                        #[trigger] now[i],
                    ) by {
                        if i < done.len() {
                            assert(now[i] == done[i]);
                        }
                    }
                    done = now;
                }
            },
            None => {
                assert(all[done.len() as int] == line);
                return None;
            },
        }
        from = next;
    }
    proof {
        assert(b@.subrange(from as int, to as int).len() == 0);
        assert(byte_lines(b@.subrange(from as int, to as int)).len() == 0);
        assert(all == done);
    }
    Some(out)
}

/// The number of bytes up to the last line break.
fn ended_len(b: &Vec<u8>) -> (r: usize)
    ensures
        r <= b.len(),
        b@.take(r as int) == ended_part(b@),
{
    let mut n: usize = b.len();
    assert(b@.take(n as int) == b@);
    while n > 0 && b[n - 1] != 10
        invariant
            n <= b.len(),
            ended_part(b@) == ended_part(b@.take(n as int)),
        decreases n,
    {
        assert(b@.take(n as int).drop_last() == b@.take(n - 1));
        n -= 1;
    }
    n
}

/// What a log says, or why it cannot be read.
pub fn read_log(u: &Unpacked) -> (r: Result<Vec<LogLine>, String>)
    ensures
        match r {
            Ok(v) => log_read(*u) == Ok::<Seq<LineView>, Seq<char>>(lines_view(v@)),
            Err(e) => log_read(*u) == Err::<Seq<LineView>, Seq<char>>(e@),
        },
{
    match u {
        Unpacked::NotStarted(e) => Err(text::joined_pair("zstd 解压失败: ", e.as_str())),
        Unpacked::Ended(b) => {
            assert(b@.take(b@.len() as int) == b@);
            match read_lines(b, b.len()) {
                Some(v) => Ok(v),
                None => Err("stream did not contain valid UTF-8".to_owned()),
            }
        },
        Unpacked::Broken(b, e) => {
            let n = ended_len(b);
            match read_lines(b, n) {
                Some(_) => Err(e.clone()),
                None => Err("stream did not contain valid UTF-8".to_owned()),
            }
        },
    }
}

} // verus!
