//! Server-sent-event decoding of a streamed chat completion: the received
//! text is cut into lines, `data: ` lines carry JSON events, and each event
//! may update the token counts and carry a piece of the reply.
use serde_json::Value;
use vstd::prelude::*;

use crate::text::{
    chars_of, chars_eq, find_char_from, index_of, is_white_space, lemma_index_of, starts_with,
    starts_with_seq, string_of_range, trim, trim_end, trim_start, trimmed_range,
};

verus! {

// ── JSON values ─────────────────────────────────────────────────────────────

/// A JSON value as the event decoder reads it. A number is kept as its value
/// when that is an integer in the range of `u64`, and as `None` otherwise; an
/// object keeps its members in order, each key once.
pub enum Json {
    Null,
    Bool(bool),
    Number(Option<u64>),
    Str(String),
    Array(Vec<Json>),
    Object(Vec<(String, Json)>),
}

/// The value of the first member named `key`.
pub open spec fn lookup(members: Seq<(String, Json)>, key: Seq<char>) -> Option<Json>
    decreases members.len(),
{
    if members.len() == 0 {
        None
    } else if members[0].0@ == key {
        Some(members[0].1)
    } else {
        lookup(members.drop_first(), key)
    }
}

/// The member `key` of an object; nothing for other values.
pub open spec fn json_field(v: Json, key: Seq<char>) -> Option<Json> {
    match v {
        Json::Object(members) => lookup(members@, key),
        _ => None,
    }
}

/// The element at `i` of an array; nothing for other values.
pub open spec fn json_item(v: Json, i: int) -> Option<Json> {
    match v {
        Json::Array(items) => if 0 <= i < items@.len() {
            Some(items@[i])
        } else {
            None
        },
        _ => None,
    }
}

/// The `u64` that a value holds, if it is such a number.
pub open spec fn json_u64(v: Option<Json>) -> Option<u64> {
    match v {
        Some(Json::Number(n)) => n,
        _ => None,
    }
}

/// The text that a value holds, if it is a string.
pub open spec fn json_text(v: Option<Json>) -> Option<Seq<char>> {
    match v {
        Some(Json::Str(s)) => Some(s@),
        _ => None,
    }
}

/// The member `key` of `v`, as `serde_json::Value::get` with a key.
pub fn json_get<'a>(v: &'a Json, key: &str) -> (r: Option<&'a Json>)
    ensures
        r matches Some(x) ==> json_field(*v, key@) == Some(*x),
        r is None ==> json_field(*v, key@) is None,
{
    match v {
        Json::Object(members) => {
            let k = chars_of(key);
            let mut i: usize = 0;
            assert(members@.skip(0) =~= members@);
            while i < members.len()
                invariant
                    i <= members@.len(),
                    k@ == key@,
                    json_field(*v, key@) == lookup(members@, key@),
                    lookup(members@, key@) == lookup(members@.skip(i as int), key@),
                decreases members.len() - i,
            {
                let name = chars_of(members[i].0.as_str());
                assert(members@.skip(i as int)[0] == members@[i as int]);
                if chars_eq(name.as_slice(), k.as_slice()) {
                    assert(members@.skip(i as int).len() > 0);
                    assert(members@.skip(i as int)[0].0@ == key@);
                    return Some(&members[i].1);
                }
                assert(members@.skip(i as int).drop_first() =~= members@.skip(i + 1));
                i += 1;
            }
            None
        },
        _ => None,
    }
}

/// The element at `i` of `v`, as `serde_json::Value::get` with an index.
pub fn json_at(v: &Json, i: usize) -> (r: Option<&Json>)
    ensures
        r matches Some(x) ==> json_item(*v, i as int) == Some(*x),
        r is None ==> json_item(*v, i as int) is None,
{
    match v {
        Json::Array(items) => if i < items.len() {
            Some(&items[i])
        } else {
            None
        },
        _ => None,
    }
}

// ── Token counts ────────────────────────────────────────────────────────────

/// Token counts that a stream reports in its `usage` events.
#[derive(Debug, Clone, Copy, PartialEq, Eq, Structural)]
pub struct StreamStats {
    pub prompt_tokens: u64,
    pub completion_tokens: u64,
}

impl Default for StreamStats {
    fn default() -> (r: Self)
        ensures
            r.prompt_tokens == 0,
            r.completion_tokens == 0,
    {
        StreamStats { prompt_tokens: 0, completion_tokens: 0 }
    }
}

/// The counts after the event `v`: when it has a `usage` member, each of
/// `prompt_tokens` and `completion_tokens` found there as a `u64` replaces the
/// count held so far; every other count stays.
pub open spec fn stats_after(v: Json, stats: StreamStats) -> StreamStats {
    match json_field(v, "usage"@) {
        None => stats,
        Some(usage) => StreamStats {
            prompt_tokens: match json_u64(json_field(usage, "prompt_tokens"@)) {
                Some(n) => n,
                None => stats.prompt_tokens,
            },
            completion_tokens: match json_u64(json_field(usage, "completion_tokens"@)) {
                Some(n) => n,
                None => stats.completion_tokens,
            },
        },
    }
}

/// Takes the token counts of the event `value` into `stats`.
pub fn update_stream_stats(value: &Json, stats: &mut StreamStats)
    ensures
        *final(stats) == stats_after(*value, *old(stats)),
        match json_field(*value, "usage"@) {
            Some(u) => match json_field(u, "prompt_tokens"@) {
                Some(Json::Number(Some(n))) => final(stats).prompt_tokens == n,
                _ => final(stats).prompt_tokens == old(stats).prompt_tokens,
            },
            None => final(stats).prompt_tokens == old(stats).prompt_tokens,
        },
        match json_field(*value, "usage"@) {
            Some(u) => match json_field(u, "completion_tokens"@) {
                Some(Json::Number(Some(n))) => final(stats).completion_tokens == n,
                _ => final(stats).completion_tokens == old(stats).completion_tokens,
            },
            None => final(stats).completion_tokens == old(stats).completion_tokens,
        },
{
    let usage = match json_get(value, "usage") {
        Some(u) => u,
        None => return ,
    };
    match json_get(usage, "prompt_tokens") {
        Some(Json::Number(Some(n))) => {
            stats.prompt_tokens = *n;
        },
        _ => {},
    }
    match json_get(usage, "completion_tokens") {
        Some(Json::Number(Some(n))) => {
            stats.completion_tokens = *n;
        },
        _ => {},
    }
}

// ── Reply text ──────────────────────────────────────────────────────────────

/// The piece of reply that the event `v` carries: the string at
/// `choices[0].delta.content`, when there is one and it is not empty.
pub open spec fn content_of(v: Json) -> Option<Seq<char>> {
    let text = match json_field(v, "choices"@) {
        Some(choices) => match json_item(choices, 0) {
            Some(choice) => match json_field(choice, "delta"@) {
                Some(delta) => json_text(json_field(delta, "content"@)),
                None => None,
            },
            None => None,
        },
        None => None,
    };
    match text {
        Some(t) => if t.len() > 0 {
            Some(t)
        } else {
            None
        },
        None => None,
    }
}

/// The piece of reply that the event `value` carries.
pub fn stream_content(value: &Json) -> (r: Option<String>)
    ensures
        r matches Some(s) ==> content_of(*value) == Some(s@),
        r is None ==> content_of(*value) is None,
        match json_field(*value, "choices"@) {
            Some(cs) => match json_item(cs, 0) {
                Some(c) => match json_field(c, "delta"@) {
                    Some(d) => match json_field(d, "content"@) {
                        Some(Json::Str(t)) => if t@.len() > 0 {
                            r matches Some(s) && s@ == t@
                        } else {
                            r is None
                        },
                        _ => r is None,
                    },
                    None => r is None,
                },
                None => r is None,
            },
            None => r is None,
        },
{
    let choices = json_get(value, "choices")?;
    let choice = json_at(choices, 0)?;
    let delta = json_get(choice, "delta")?;
    match json_get(delta, "content") {
        Some(Json::Str(s)) => {
            if s.as_str().is_empty() {
                None
            } else {
                Some(s.clone())
            }
        },
        _ => None,
    }
}

// ── Lines ───────────────────────────────────────────────────────────────────

/// The JSON text that a stream line carries: what follows `data: `, unless
/// that is the end marker `[DONE]`. Other lines carry nothing.
pub open spec fn stream_payload(line: Seq<char>) -> Option<Seq<char>> {
    if !starts_with_seq(line, "data: "@) {
        None
    } else {
        let data = line.skip("data: "@.len() as int);
        if data == "[DONE]"@ {
            None
        } else {
            Some(data)
        }
    }
}

/// What `serde_json` parses `text` into, as a `Json`: `None` when the text
/// is not one JSON value.
pub uninterp spec fn json_parse(text: Seq<char>) -> Option<Json>;

/// `serde_json::Value`, carried from the parse to its conversion.
#[verifier::external_type_specification]
#[verifier::external_body]
pub struct ExJsonValue(Value);

/// The `Json` that holds what a `serde_json::Value` holds, member for member;
/// a number becomes its `u64` value when `Number::as_u64` gives one.
#[verifier::external_body]
fn json_of(v: &Value) -> Json {
    match v {
        Value::Null => Json::Null,
        Value::Bool(b) => Json::Bool(*b),
        Value::Number(n) => Json::Number(n.as_u64()),
        Value::String(t) => Json::Str(t.clone()),
        Value::Array(items) => Json::Array(items.iter().map(json_of).collect()),
        Value::Object(m) => Json::Object(m.iter().map(|(k, x)| (k.clone(), json_of(x))).collect()),
    }
}

/// `serde_json::from_str::<serde_json::Value>`: parses `text` as one JSON
/// value. The contract claims only that the result is the named function
/// `json_parse` of the text; the JSON grammar is not written out.
#[verifier::external_body]
pub fn parse_json(text: &str) -> (r: Option<Json>)
    ensures
        r == json_parse(text@),
{
    match serde_json::from_str::<Value>(text) {
        Ok(v) => Some(json_of(&v)),
        Err(_) => None,
    }
}

/// The counts after a line whose JSON payload parsed as `j`.
pub open spec fn stats_after_event(j: Option<Json>, stats: StreamStats) -> StreamStats {
    match j {
        Some(v) => stats_after(v, stats),
        None => stats,
    }
}

/// The reply piece of a line whose JSON payload parsed as `j`.
pub open spec fn content_of_event(j: Option<Json>) -> Option<Seq<char>> {
    match j {
        Some(v) => content_of(v),
        None => None,
    }
}

/// The counts after reading `line`, and the reply piece it gives: a line
/// with a payload has the payload parsed; every other line changes nothing.
pub open spec fn line_outcome(line: Seq<char>, stats: StreamStats) -> (
    StreamStats,
    Option<Seq<char>>,
) {
    match stream_payload(line) {
        Some(d) => (stats_after_event(json_parse(d), stats), content_of_event(json_parse(d))),
        None => (stats, None),
    }
}

/// Reads one stream line: a `data: ` line other than `data: [DONE]` has its
/// payload parsed as JSON; a value updates `stats` and its reply piece, if
/// any, is returned. Every other line, and a payload that does not parse,
/// leaves `stats` as it was and gives nothing.
pub fn parse_stream_line(line: &str, stats: &mut StreamStats) -> (r: Option<String>)
    ensures
        *final(stats) == line_outcome(line@, *old(stats)).0,
        r matches Some(s) ==> line_outcome(line@, *old(stats)).1 == Some(s@),
        r is None ==> line_outcome(line@, *old(stats)).1 is None,
{
    let cs = chars_of(line);
    let prefix = chars_of("data: ");
    proof {
        reveal_strlit("data: ");
    }
    if cs.len() == 0 || !starts_with(cs.as_slice(), prefix.as_slice()) {
        return None;
    }
    let data = string_of_range(cs.as_slice(), prefix.len(), cs.len());
    assert(data@ =~= line@.skip("data: "@.len() as int));
    let data_chars = chars_of(data.as_str());
    let done = chars_of("[DONE]");
    if chars_eq(data_chars.as_slice(), done.as_slice()) {
        return None;
    }
    let parsed = parse_json(data.as_str());
    assert(stream_payload(line@) == Some(data@));
    match &parsed {
        Some(value) => {
            update_stream_stats(value, stats);
            stream_content(value)
        },
        None => None,
    }
}

// ── The receive buffer ──────────────────────────────────────────────────────

/// The complete lines of `s`, in order and trimmed: each piece that a
/// newline ends.
pub open spec fn stream_lines(s: Seq<char>) -> Seq<Seq<char>>
    decreases s.len(),
{
    match index_of(s, '\n') {
        Some(p) => {
            proof {
                lemma_index_of(s, '\n');
            }
            seq![trim(s.take(p))] + stream_lines(s.skip(p + 1))
        },
        None => seq![],
    }
}

/// What follows the last newline of `s` (all of `s` when it has none): the
/// partial line that waits for more input.
pub open spec fn stream_rest(s: Seq<char>) -> Seq<char>
    decreases s.len(),
{
    match index_of(s, '\n') {
        Some(p) => {
            proof {
                lemma_index_of(s, '\n');
            }
            stream_rest(s.skip(p + 1))
        },
        None => s,
    }
}

/// The counts and reply pieces after reading `lines` in order from `stats`.
pub open spec fn drain_outcome(lines: Seq<Seq<char>>, stats: StreamStats) -> (
    StreamStats,
    Seq<Seq<char>>,
)
    decreases lines.len(),
{
    if lines.len() == 0 {
        (stats, seq![])
    } else {
        let (before, pieces) = drain_outcome(lines.drop_last(), stats);
        let (after, piece) = line_outcome(lines.last(), before);
        match piece {
            Some(c) => (after, pieces.push(c)),
            None => (after, pieces),
        }
    }
}

/// The buffer left, the counts and the reply pieces after draining the text
/// `s` from `stats`.
pub open spec fn drain_result(s: Seq<char>, stats: StreamStats) -> (
    Seq<char>,
    StreamStats,
    Seq<Seq<char>>,
) {
    let (after, pieces) = drain_outcome(stream_lines(s), stats);
    (stream_rest(s), after, pieces)
}

/// The texts of a list of strings.
pub open spec fn texts(v: Seq<String>) -> Seq<Seq<char>> {
    v.map_values(|s: String| s@)
}

/// Reads every complete line of `buf` in order, as `parse_stream_line` does,
/// and returns the reply pieces found, in order. `buf` keeps only the partial
/// line after its last newline.
pub fn drain_stream_buffer(buf: &mut String, stats: &mut StreamStats) -> (out: Vec<String>)
    ensures
        (final(buf)@, *final(stats), texts(out@)) == drain_result(old(buf)@, *old(stats)),
{
    let cs = chars_of(buf.as_str());
    let ghost whole = cs@;
    let ghost stats0 = *stats;
    let mut out: Vec<String> = Vec::new();
    let ghost mut done_lines: Seq<Seq<char>> = seq![];
    let n = cs.len();
    let mut start: usize = 0;
    assert(whole.skip(0) =~= whole);
    assert(seq![] + stream_lines(whole) =~= stream_lines(whole));
    loop
        invariant
            n == cs@.len(),
            cs@ == whole,
            whole == old(buf)@,
            start <= cs@.len(),
            stream_lines(whole) == done_lines + stream_lines(whole.skip(start as int)),
            stream_rest(whole) == stream_rest(whole.skip(start as int)),
            drain_outcome(done_lines, stats0) == (*stats, texts(out@)),
        ensures
            buf@ == stream_rest(whole),
            done_lines == stream_lines(whole),
            drain_outcome(done_lines, stats0) == (*stats, texts(out@)),
        decreases cs@.len() - start,
    {
        let ghost cur = whole.skip(start as int);
        match find_char_from(cs.as_slice(), '\n', start) {
            None => {
                *buf = string_of_range(cs.as_slice(), start, cs.len());
                assert(buf@ =~= cur);
                assert(stream_lines(cur) =~= seq![]);
                assert(stream_rest(cur) == cur);
                assert(done_lines + seq![] =~= done_lines);
                break ;
            },
            Some(pos) => {
                let ghost p = pos - start;
                let line = trimmed_range(cs.as_slice(), start, pos);
                proof {
                    assert(cur.take(p) =~= whole.subrange(start as int, pos as int));
                    assert(cur.skip(p + 1) =~= whole.skip(pos + 1));
                    assert(stream_lines(cur) == seq![line@] + stream_lines(whole.skip(pos + 1)));
                }
                let ghost out_before = out@;
                let piece = parse_stream_line(line.as_str(), stats);
                match piece {
                    Some(s) => {
                        out.push(s);
                    },
                    None => {},
                }
                proof {
                    let new_lines = done_lines.push(line@);
                    assert(new_lines.drop_last() =~= done_lines);
                    assert(new_lines.last() == line@);
                    assert(texts(out@) =~= match piece {
                        Some(s) => texts(out_before).push(s@),
                        None => texts(out_before),
                    });
                    assert(done_lines + stream_lines(cur) =~= new_lines + stream_lines(
                        whole.skip(pos + 1),
                    ));
                    done_lines = new_lines;
                }
                start = pos + 1;
            },
        }
    }
    out
}

// ── Laws ────────────────────────────────────────────────────────────────────

/// After draining, the buffer holds no newline, so draining it again reads
/// no line and keeps it as it is.
pub proof fn lemma_drain_leaves_no_line(s: Seq<char>)
    ensures
        index_of(stream_rest(s), '\n') is None,
        stream_lines(stream_rest(s)) == Seq::<Seq<char>>::empty(),
        stream_rest(stream_rest(s)) == stream_rest(s),
    decreases s.len(),
{
    lemma_index_of(s, '\n');
    if let Some(p) = index_of(s, '\n') {
        lemma_drain_leaves_no_line(s.skip(p + 1));
    } else {
        assert(stream_lines(s) =~= Seq::<Seq<char>>::empty());
    }
}

/// Draining a second time with no new text changes nothing: the buffer, the
/// counts and the (empty) reply.
pub proof fn lemma_drain_again(s: Seq<char>, stats: StreamStats)
    ensures
        drain_result(stream_rest(s), stats) == (stream_rest(s), stats, Seq::<Seq<char>>::empty()),
{
    lemma_drain_leaves_no_line(s);
}

/// A text without a newline is all partial line: it gives no line and stays
/// whole in the buffer.
pub proof fn lemma_partial_line_is_kept(s: Seq<char>)
    requires
        forall|i: int| 0 <= i < s.len() ==> s[i] != '\n',
    ensures
        stream_lines(s) == Seq::<Seq<char>>::empty(),
        stream_rest(s) == s,
{
    lemma_index_of(s, '\n');
    if let Some(p) = index_of(s, '\n') {
        assert(s[p] == '\n');
    }
    assert(stream_lines(s) =~= Seq::<Seq<char>>::empty());
}

proof fn lemma_index_of_prefix(a: Seq<char>, b: Seq<char>, c: char)
    ensures
        index_of(a, c) matches Some(p) ==> index_of(a + b, c) == Some(p),
        index_of(a, c) is None ==> index_of(a + b, c) == match index_of(b, c) {
            Some(q) => Some(q + a.len()),
            None => None,
        },
{
    lemma_index_of(a, c);
    lemma_index_of(b, c);
    lemma_index_of(a + b, c);
    if let Some(p) = index_of(a, c) {
        crate::text::lemma_index_of_found(a + b, c, p);
    } else {
        if let Some(q) = index_of(b, c) {
            assert((a + b)[q + a.len()] == b[q]);
            assert forall|j: int| 0 <= j < q + a.len() implies (a + b)[j] != c by {
                if j >= a.len() {
                    assert((a + b)[j] == b[j - a.len()]);
                }
            }
            crate::text::lemma_index_of_found(a + b, c, q + a.len());
        } else {
            if let Some(k) = index_of(a + b, c) {
                if k >= a.len() {
                    assert((a + b)[k] == b[k - a.len()]);
                }
            }
        }
    }
}

/// Where the received text is cut into chunks does not matter for the lines:
/// reading `a` and then the rest of `a` followed by `b` gives the same lines,
/// in the same order, and the same partial line as reading `a + b` at once.
pub proof fn lemma_drain_chunks(a: Seq<char>, b: Seq<char>)
    ensures
        stream_lines(a + b) == stream_lines(a) + stream_lines(stream_rest(a) + b),
        stream_rest(a + b) == stream_rest(stream_rest(a) + b),
    decreases a.len(),
{
    lemma_index_of_prefix(a, b, '\n');
    lemma_index_of(a, '\n');
    if let Some(p) = index_of(a, '\n') {
        let tail = a.skip(p + 1);
        lemma_drain_chunks(tail, b);
        assert((a + b).take(p) =~= a.take(p));
        assert((a + b).skip(p + 1) =~= tail + b);
        assert(stream_lines(a + b) =~= seq![trim(a.take(p))] + stream_lines(tail + b));
        assert(stream_lines(a) =~= seq![trim(a.take(p))] + stream_lines(tail));
    } else {
        assert(stream_lines(a) =~= Seq::<Seq<char>>::empty());
        assert(stream_lines(a) + stream_lines(a + b) =~= stream_lines(a + b));
    }
}

/// Reading two runs of lines one after the other gives the counts and reply
/// pieces of reading them as one run.
pub proof fn lemma_drain_outcome_append(l1: Seq<Seq<char>>, l2: Seq<Seq<char>>, stats: StreamStats)
    ensures
        drain_outcome(l1 + l2, stats) == (
            drain_outcome(l2, drain_outcome(l1, stats).0).0,
            drain_outcome(l1, stats).1 + drain_outcome(l2, drain_outcome(l1, stats).0).1,
        ),
    decreases l2.len(),
{
    if l2.len() == 0 {
        assert(l1 + l2 =~= l1);
        assert(drain_outcome(l1, stats).1 + Seq::<Seq<char>>::empty() =~= drain_outcome(
            l1,
            stats,
        ).1);
    } else {
        lemma_drain_outcome_append(l1, l2.drop_last(), stats);
        assert((l1 + l2).drop_last() =~= l1 + l2.drop_last());
        assert((l1 + l2).last() == l2.last());
        let (s1, o1) = drain_outcome(l1, stats);
        let (s2, o2) = drain_outcome(l2.drop_last(), s1);
        if let Some(c) = line_outcome(l2.last(), s2).1 {
            assert((o1 + o2).push(c) =~= o1 + o2.push(c));
        }
    }
}

/// Where the received text is cut into chunks does not matter at all:
/// draining `a`, appending `b` to what is left and draining again ends with
/// the same buffer and counts, and has given the same reply pieces in the same
/// order, as draining `a + b` at once.
pub proof fn lemma_drain_chunk_boundary(a: Seq<char>, b: Seq<char>, stats: StreamStats)
    ensures
        ({
            let (rest1, stats1, pieces1) = drain_result(a, stats);
            let (rest2, stats2, pieces2) = drain_result(rest1 + b, stats1);
            drain_result(a + b, stats) == (rest2, stats2, pieces1 + pieces2)
        }),
{
    lemma_drain_chunks(a, b);
    lemma_drain_outcome_append(stream_lines(a), stream_lines(stream_rest(a) + b), stats);
}

/// Every reply piece that reading lines yields is non-empty.
pub proof fn lemma_drain_pieces_not_empty(lines: Seq<Seq<char>>, stats: StreamStats)
    ensures
        forall|i: int|
            0 <= i < drain_outcome(lines, stats).1.len() ==> (#[trigger] drain_outcome(
                lines,
                stats,
            ).1[i]).len() > 0,
    decreases lines.len(),
{
    if lines.len() > 0 {
        lemma_drain_pieces_not_empty(lines.drop_last(), stats);
        let (before, pieces) = drain_outcome(lines.drop_last(), stats);
        let all = drain_outcome(lines, stats).1;
        assert forall|i: int| 0 <= i < all.len() implies (#[trigger] all[i]).len() > 0 by {
            if i < pieces.len() {
                assert(all[i] == pieces[i]);
            }
        }
    }
}

/// Lines that carry no payload (blank lines, other fields, `data: [DONE]`)
/// change neither the counts nor the reply.
pub proof fn lemma_lines_without_payload(lines: Seq<Seq<char>>, stats: StreamStats)
    requires
        forall|i: int| 0 <= i < lines.len() ==> stream_payload(#[trigger] lines[i]) is None,
    ensures
        drain_outcome(lines, stats) == (stats, Seq::<Seq<char>>::empty()),
    decreases lines.len(),
{
    if lines.len() > 0 {
        assert(stream_payload(lines[lines.len() - 1]) is None);
        lemma_lines_without_payload(lines.drop_last(), stats);
    }
}

/// `s` with each newline preceded by a carriage return.
pub open spec fn crlf(s: Seq<char>) -> Seq<char>
    decreases s.len(),
{
    if s.len() == 0 {
        s
    } else if s[0] == '\n' {
        seq!['\r', '\n'] + crlf(s.drop_first())
    } else {
        seq![s[0]] + crlf(s.drop_first())
    }
}

proof fn lemma_crlf_append(a: Seq<char>, b: Seq<char>)
    ensures
        crlf(a + b) == crlf(a) + crlf(b),
    decreases a.len(),
{
    if a.len() == 0 {
        assert(a + b =~= b);
        assert(crlf(a) + crlf(b) =~= crlf(b));
    } else {
        lemma_crlf_append(a.drop_first(), b);
        assert((a + b).drop_first() =~= a.drop_first() + b);
        assert((a + b)[0] == a[0]);
        if a[0] == '\n' {
            assert(crlf(a + b) =~= seq!['\r', '\n'] + crlf(a.drop_first()) + crlf(b));
        } else {
            assert(crlf(a + b) =~= seq![a[0]] + crlf(a.drop_first()) + crlf(b));
        }
    }
}

proof fn lemma_crlf_without_newline(s: Seq<char>)
    requires
        forall|i: int| 0 <= i < s.len() ==> s[i] != '\n',
    ensures
        crlf(s) == s,
    decreases s.len(),
{
    if s.len() > 0 {
        assert forall|i: int| 0 <= i < s.drop_first().len() implies s.drop_first()[i] != '\n' by {
            assert(s.drop_first()[i] == s[i + 1]);
        }
        lemma_crlf_without_newline(s.drop_first());
        assert(s =~= seq![s[0]] + s.drop_first());
    }
}

proof fn lemma_trim_start_push(s: Seq<char>, c: char)
    ensures
        trim_start(s.push(c)) == if trim_start(s).len() == 0 {
            trim_start(seq![c])
        } else {
            trim_start(s).push(c)
        },
    decreases s.len(),
{
    if s.len() == 0 {
        assert(s.push(c) =~= seq![c]);
    } else {
        assert(s.push(c)[0] == s[0]);
        assert(s.push(c).drop_first() =~= s.drop_first().push(c));
        if is_white_space(s[0]) {
            lemma_trim_start_push(s.drop_first(), c);
        }
    }
}

/// A carriage return before the newline does not change a line.
pub proof fn lemma_trim_carriage_return(s: Seq<char>)
    ensures
        trim(s.push('\r')) == trim(s),
{
    lemma_trim_start_push(s, '\r');
    let t = trim_start(s);
    assert(is_white_space('\r'));
    if t.len() == 0 {
        assert(seq!['\r'].drop_first() =~= Seq::<char>::empty());
        assert(trim_start(seq!['\r']) == trim_start(Seq::<char>::empty()));
        assert(trim_end(t) == t);
    } else {
        assert(t.push('\r').drop_last() =~= t);
    }
}

/// Lines ended by `\r\n` read as lines ended by `\n`: the same lines, the
/// same partial line, and so the same buffer, counts and reply pieces.
pub proof fn lemma_drain_crlf(s: Seq<char>, stats: StreamStats)
    ensures
        stream_lines(crlf(s)) == stream_lines(s),
        stream_rest(crlf(s)) == stream_rest(s),
        drain_result(crlf(s), stats) == drain_result(s, stats),
    decreases s.len(),
{
    lemma_index_of(s, '\n');
    if let Some(p) = index_of(s, '\n') {
        let a = s.take(p);
        let r = s.skip(p + 1);
        assert(s =~= a + seq!['\n'] + r);
        assert forall|i: int| 0 <= i < a.len() implies a[i] != '\n' by {}
        lemma_crlf_without_newline(a);
        lemma_crlf_append(a + seq!['\n'], r);
        lemma_crlf_append(a, seq!['\n']);
        assert(crlf(seq!['\n']) =~= seq!['\r', '\n']) by {
            let one = seq!['\n'];
            assert(one[0] == '\n');
            assert(one.drop_first() =~= Seq::<char>::empty());
            assert(crlf(one.drop_first()) == Seq::<char>::empty());
            assert(seq!['\r', '\n'] + Seq::<char>::empty() =~= seq!['\r', '\n']);
        }
        let c = crlf(s);
        let a2 = a.push('\r');
        assert(c =~= a2 + seq!['\n'] + crlf(r));
        assert(a2[a.len() as int] == '\r');
        crate::text::lemma_index_of_found(c, '\n', a.len() + 1int);
        assert(c.take(a.len() + 1int) =~= a2);
        assert(c.skip(a.len() + 2int) =~= crlf(r));
        lemma_trim_carriage_return(a);
        lemma_drain_crlf(r, stats);
        assert(stream_lines(c) =~= seq![trim(a)] + stream_lines(crlf(r)));
        assert(stream_lines(s) =~= seq![trim(a)] + stream_lines(r));
    } else {
        lemma_crlf_without_newline(s);
    }
}

/// Each count comes from its own member of `usage`: after an event whose
/// `usage` holds `prompt_tokens` (or `completion_tokens`) as a `u64` `n`, that
/// count is `n`, whatever else `usage` holds; when the event does not hold it
/// so, that count is the one held before.
pub proof fn lemma_counts_come_from_their_members(v: Json, stats: StreamStats)
    ensures
        match json_field(v, "usage"@) {
            Some(u) => match json_field(u, "prompt_tokens"@) {
                Some(Json::Number(Some(n))) => stats_after(v, stats).prompt_tokens == n,
                _ => stats_after(v, stats).prompt_tokens == stats.prompt_tokens,
            },
            None => stats_after(v, stats).prompt_tokens == stats.prompt_tokens,
        },
        match json_field(v, "usage"@) {
            Some(u) => match json_field(u, "completion_tokens"@) {
                Some(Json::Number(Some(n))) => stats_after(v, stats).completion_tokens == n,
                _ => stats_after(v, stats).completion_tokens == stats.completion_tokens,
            },
            None => stats_after(v, stats).completion_tokens == stats.completion_tokens,
        },
{
}

/// The completion count reads no member of `usage` but `completion_tokens`,
/// and the prompt count none but `prompt_tokens`: two events whose `usage`
/// agree on that member give the same count from the same start.
pub proof fn lemma_counts_read_one_member_each(
    v1: Json,
    v2: Json,
    u1: Json,
    u2: Json,
    stats: StreamStats,
)
    requires
        json_field(v1, "usage"@) == Some(u1),
        json_field(v2, "usage"@) == Some(u2),
    ensures
        json_field(u1, "completion_tokens"@) == json_field(u2, "completion_tokens"@) ==> stats_after(
            v1,
            stats,
        ).completion_tokens == stats_after(v2, stats).completion_tokens,
        json_field(u1, "prompt_tokens"@) == json_field(u2, "prompt_tokens"@) ==> stats_after(
            v1,
            stats,
        ).prompt_tokens == stats_after(v2, stats).prompt_tokens,
{
}

/// The reply piece is the text at `choices[0].delta.content`, character for
/// character, when it is a non-empty string; otherwise there is none.
pub proof fn lemma_reply_piece_is_the_content(v: Json)
    ensures
        match json_field(v, "choices"@) {
            Some(cs) => match json_item(cs, 0) {
                Some(c) => match json_field(c, "delta"@) {
                    Some(d) => match json_field(d, "content"@) {
                        Some(Json::Str(t)) => if t@.len() > 0 {
                            content_of(v) == Some(t@)
                        } else {
                            content_of(v) is None
                        },
                        _ => content_of(v) is None,
                    },
                    None => content_of(v) is None,
                },
                None => content_of(v) is None,
            },
            None => content_of(v) is None,
        },
{
}

/// A `data: ` line whose payload parses to an event gives that event's
/// content text as its piece, whitespace included, and that event's counts.
pub proof fn lemma_line_reads_its_event(line: Seq<char>, v: Json, stats: StreamStats)
    requires
        stream_payload(line) matches Some(d) && json_parse(d) == Some(v),
    ensures
        line_outcome(line, stats).0 == stats_after(v, stats),
        line_outcome(line, stats).1 == content_of(v),
        match json_field(v, "choices"@) {
            Some(cs) => match json_item(cs, 0) {
                Some(c) => match json_field(c, "delta"@) {
                    Some(d) => match json_field(d, "content"@) {
                        Some(Json::Str(t)) => t@.len() > 0 ==> line_outcome(line, stats).1 == Some(
                            t@,
                        ),
                        _ => line_outcome(line, stats).1 is None,
                    },
                    None => line_outcome(line, stats).1 is None,
                },
                None => line_outcome(line, stats).1 is None,
            },
            None => line_outcome(line, stats).1 is None,
        },
{
    lemma_reply_piece_is_the_content(v);
}

} // verus!
