//! Prometheus-compatible metrics for pipeline observability.

use crate::text::{
    decimal, find_char, is_space, length, lemma_find_bounds, lemma_first_word, lemma_skip_space,
    numeral, part, position, same, split_whitespace, words,
};
use vstd::prelude::*;
use vstd::string::StrSliceExecFns;
use vstd::utf8::{decode_utf8, encode_utf8, valid_utf8};

verus! {

/// A request head longer than this is not a metrics scrape.
pub const REQUEST_HEAD_LIMIT: usize = 8192;

/// The counters of a pipeline. They wrap around at the end of their range.
#[derive(Debug)]
pub struct Metrics {
    events_received: u64,
    events_emitted: u64,
    events_filtered: u64,
    events_late: u64,
    processing_time_us: u64,
    processing_count: u64,
}

/// What the counters stand at.
pub struct MetricsView {
    pub received: u64,
    pub emitted: u64,
    pub filtered: u64,
    pub late: u64,
    pub processing_time_us: u64,
    pub processing_count: u64,
}

/// A counter `n` further on, wrapping around at the end of its range.
pub open spec fn counted(counter: u64, n: u64) -> u64 {
    if counter + n > u64::MAX {
        (counter + n - 0x1_0000_0000_0000_0000) as u64
    } else {
        (counter + n) as u64
    }
}

fn count(counter: u64, n: u64) -> (r: u64)
    ensures
        r == counted(counter, n),
{
    counter.wrapping_add(n)
}

impl View for Metrics {
    type V = MetricsView;

    closed spec fn view(&self) -> MetricsView {
        MetricsView {
            received: self.events_received,
            emitted: self.events_emitted,
            filtered: self.events_filtered,
            late: self.events_late,
            processing_time_us: self.processing_time_us,
            processing_count: self.processing_count,
        }
    }
}

impl MetricsView {
    /// All counters at zero.
    pub open spec fn clear() -> MetricsView {
        MetricsView {
            received: 0,
            emitted: 0,
            filtered: 0,
            late: 0,
            processing_time_us: 0,
            processing_count: 0,
        }
    }

    /// One more event received.
    pub open spec fn one_received(self) -> MetricsView {
        MetricsView { received: counted(self.received, 1), ..self }
    }

    /// One more event emitted.
    pub open spec fn one_emitted(self) -> MetricsView {
        MetricsView { emitted: counted(self.emitted, 1), ..self }
    }

    /// One more event filtered out.
    pub open spec fn one_filtered(self) -> MetricsView {
        MetricsView { filtered: counted(self.filtered, 1), ..self }
    }

    /// One more late event.
    pub open spec fn one_late(self) -> MetricsView {
        MetricsView { late: counted(self.late, 1), ..self }
    }

    /// One more event whose processing took this long.
    pub open spec fn one_timed(self, microseconds: u64) -> MetricsView {
        MetricsView {
            processing_time_us: counted(self.processing_time_us, microseconds),
            processing_count: counted(self.processing_count, 1),
            ..self
        }
    }

    /// The counters in Prometheus exposition format, with the average processing time
    /// rendered as `average`.
    pub open spec fn exposition(self, prefix: Seq<char>, average: Seq<char>) -> Seq<char> {
        family(
            prefix,
            "_events_received_total"@,
            "Total events received"@,
            "counter"@,
            numeral(self.received as nat),
        ) + family(
            prefix,
            "_events_emitted_total"@,
            "Total events emitted"@,
            "counter"@,
            numeral(self.emitted as nat),
        ) + family(
            prefix,
            "_events_filtered_total"@,
            "Total events filtered out"@,
            "counter"@,
            numeral(self.filtered as nat),
        ) + family(
            prefix,
            "_events_late_total"@,
            "Total late events"@,
            "counter"@,
            numeral(self.late as nat),
        ) + family(
            prefix,
            "_processing_time_avg_us"@,
            "Average processing time in microseconds"@,
            "gauge"@,
            average,
        )
    }
}

/// One metric in exposition format: its help line, its type line and its value line.
pub open spec fn family(
    prefix: Seq<char>,
    name: Seq<char>,
    help: Seq<char>,
    kind: Seq<char>,
    value: Seq<char>,
) -> Seq<char> {
    "# HELP "@ + prefix + name + " "@ + help + "\n"@ + "# TYPE "@ + prefix + name + " "@ + kind
        + "\n"@ + value_line(prefix, name, value)
}

/// The line that gives a metric's value.
pub open spec fn value_line(prefix: Seq<char>, name: Seq<char>, value: Seq<char>) -> Seq<char> {
    prefix + name + " "@ + value + "\n"@
}

fn metric(prefix: &str, name: &str, help: &str, kind: &str, value: &str) -> (r: String)
    ensures
        r@ == family(prefix@, name@, help@, kind@, value@),
{
    let mut line = prefix.to_string();
    line.append(name);
    line.append(" ");
    line.append(value);
    line.append("\n");
    let mut out = "# HELP ".to_string();
    out.append(prefix);
    out.append(name);
    out.append(" ");
    out.append(help);
    out.append("\n");
    out.append("# TYPE ");
    out.append(prefix);
    out.append(name);
    out.append(" ");
    out.append(kind);
    out.append("\n");
    out.append(line.as_str());
    out
}

impl Metrics {
    /// Counters at zero.
    pub fn new() -> (r: Metrics)
        ensures
            r@ == MetricsView::clear(),
    {
        Metrics {
            events_received: 0,
            events_emitted: 0,
            events_filtered: 0,
            events_late: 0,
            processing_time_us: 0,
            processing_count: 0,
        }
    }

    /// A copy of the counters as they stand. What is counted later on either does not show
    /// on the other.
    pub fn snapshot(&self) -> (r: Metrics)
        ensures
            r@ == self@,
    {
        Metrics {
            events_received: self.events_received,
            events_emitted: self.events_emitted,
            events_filtered: self.events_filtered,
            events_late: self.events_late,
            processing_time_us: self.processing_time_us,
            processing_count: self.processing_count,
        }
    }

    /// Count an event that came in.
    pub fn inc_received(&mut self)
        ensures
            final(self)@ == old(self)@.one_received(),
    {
        self.events_received = count(self.events_received, 1);
    }

    /// Count an event that went out.
    pub fn inc_emitted(&mut self)
        ensures
            final(self)@ == old(self)@.one_emitted(),
    {
        self.events_emitted = count(self.events_emitted, 1);
    }

    /// Count an event that a stage dropped.
    pub fn inc_filtered(&mut self)
        ensures
            final(self)@ == old(self)@.one_filtered(),
    {
        self.events_filtered = count(self.events_filtered, 1);
    }

    /// Count an event that came too late.
    pub fn inc_late(&mut self)
        ensures
            final(self)@ == old(self)@.one_late(),
    {
        self.events_late = count(self.events_late, 1);
    }

    /// Count an event whose processing took `microseconds`.
    pub fn record_processing_time(&mut self, microseconds: u64)
        ensures
            final(self)@ == old(self)@.one_timed(microseconds),
    {
        self.processing_time_us = count(self.processing_time_us, microseconds);
        self.processing_count = count(self.processing_count, 1);
    }

    /// The events that came in.
    pub fn events_received(&self) -> (r: u64)
        ensures
            r == self@.received,
    {
        self.events_received
    }

    /// The events that went out.
    pub fn events_emitted(&self) -> (r: u64)
        ensures
            r == self@.emitted,
    {
        self.events_emitted
    }

    /// The events that a stage dropped.
    pub fn events_filtered(&self) -> (r: u64)
        ensures
            r == self@.filtered,
    {
        self.events_filtered
    }

    /// The events that came too late.
    pub fn events_late(&self) -> (r: u64)
        ensures
            r == self@.late,
    {
        self.events_late
    }

    /// The microseconds spent processing.
    pub fn processing_time_us(&self) -> (r: u64)
        ensures
            r == self@.processing_time_us,
    {
        self.processing_time_us
    }

    /// The events whose processing was timed.
    pub fn processing_count(&self) -> (r: u64)
        ensures
            r == self@.processing_count,
    {
        self.processing_count
    }

    /// Render metrics in Prometheus exposition format. `average` is the average processing
    /// time, rendered with two decimals.
    pub fn to_prometheus(&self, prefix: &str, average: &str) -> (r: String)
        ensures
            r@ == self@.exposition(prefix@, average@),
    {
        let mut out = metric(
            prefix,
            "_events_received_total",
            "Total events received",
            "counter",
            decimal(self.events_received).as_str(),
        );
        out.append(
            metric(
                prefix,
                "_events_emitted_total",
                "Total events emitted",
                "counter",
                decimal(self.events_emitted).as_str(),
            ).as_str(),
        );
        out.append(
            metric(
                prefix,
                "_events_filtered_total",
                "Total events filtered out",
                "counter",
                decimal(self.events_filtered).as_str(),
            ).as_str(),
        );
        out.append(
            metric(
                prefix,
                "_events_late_total",
                "Total late events",
                "counter",
                decimal(self.events_late).as_str(),
            ).as_str(),
        );
        out.append(
            metric(
                prefix,
                "_processing_time_avg_us",
                "Average processing time in microseconds",
                "gauge",
                average,
            ).as_str(),
        );
        out
    }

    /// Reset all counters.
    pub fn reset(&mut self)
        ensures
            final(self)@ == MetricsView::clear(),
    {
        *self = Metrics::new();
    }
}

impl Default for Metrics {
    fn default() -> (r: Metrics)
        ensures
            r@ == MetricsView::clear(),
    {
        Metrics::new()
    }
}

/// The word at `i`, or no characters where there are fewer words.
pub open spec fn word_at(line: Seq<char>, i: int) -> Seq<char> {
    if i < words(line).len() {
        words(line)[i]
    } else {
        Seq::empty()
    }
}

/// What comes before the first `c`, or everything where there is none.
pub open spec fn up_to(s: Seq<char>, c: char) -> Seq<char> {
    s.take(find_char(s, c, 0))
}

/// The method a request head asks with.
pub open spec fn request_method(head: Seq<char>) -> Seq<char> {
    word_at(up_to(head, '\n'), 0)
}

/// The path a request head asks for, without its query.
pub open spec fn request_path(head: Seq<char>) -> Seq<char> {
    up_to(word_at(up_to(head, '\n'), 1), '?')
}

/// The media type of the exposition.
pub open spec fn exposition_type() -> Seq<char> {
    "text/plain; version=0.0.4; charset=utf-8"@
}

/// A whole HTTP response.
pub open spec fn http_message(
    status: Seq<char>,
    content_type: Seq<char>,
    body: Seq<char>,
) -> Seq<char> {
    "HTTP/1.1 "@ + status + "\r\nContent-Type: "@ + content_type + "\r\nContent-Length: "@
        + numeral(encode_utf8(body).len()) + "\r\nConnection: close\r\n\r\n"@ + body
}

/// The response to a request head: only GET is served, and only on the configured path.
pub open spec fn response(
    head: Seq<char>,
    path: Seq<char>,
    metrics: MetricsView,
    average: Seq<char>,
) -> Seq<char> {
    if request_method(head) != "GET"@ {
        http_message("405 Method Not Allowed"@, "text/plain"@, "only GET is served"@)
    } else if request_path(head) != path {
        http_message("404 Not Found"@, "text/plain"@, "no such path"@)
    } else {
        http_message("200 OK"@, exposition_type(), metrics.exposition("fluvius"@, average))
    }
}

fn before(s: &str, c: char) -> (r: String)
    ensures
        r@ == up_to(s@, c),
{
    let end: usize = match position(s, c) {
        Some(i) => i,
        None => length(s),
    };
    part(s, 0, end)
}

fn nth_word(line: &str, i: usize) -> (r: String)
    ensures
        r@ == word_at(line@, i as int),
{
    let all = split_whitespace(line);
    if i < all.len() {
        all[i].clone()
    } else {
        String::new()
    }
}

/// The full HTTP response to one request head. `average` is the average processing time,
/// rendered with two decimals.
pub fn respond(head: &str, path: &str, metrics: &Metrics, average: &str) -> (r: String)
    ensures
        r@ == response(head@, path@, metrics@, average@),
{
    let line = before(head, '\n');
    let method = nth_word(line.as_str(), 0);
    let word = nth_word(line.as_str(), 1);
    let target = before(word.as_str(), '?');
    if !same(method.as_str(), "GET") {
        return http_response("405 Method Not Allowed", "text/plain", "only GET is served");
    }
    if !same(target.as_str(), path) {
        return http_response("404 Not Found", "text/plain", "no such path");
    }
    http_response(
        "200 OK",
        "text/plain; version=0.0.4; charset=utf-8",
        metrics.to_prometheus("fluvius", average).as_str(),
    )
}

/// An HTTP response with its length in bytes declared.
pub fn http_response(status: &str, content_type: &str, body: &str) -> (r: String)
    ensures
        r@ == http_message(status@, content_type@, body@),
{
    let bytes: usize = body.as_bytes().len();
    let mut out = "HTTP/1.1 ".to_string();
    out.append(status);
    out.append("\r\nContent-Type: ");
    out.append(content_type);
    out.append("\r\nContent-Length: ");
    out.append(decimal(bytes as u64).as_str());
    out.append("\r\nConnection: close\r\n\r\n");
    out.append(body);
    out
}

/// Whether the blank line that ends a request head starts at `i`.
pub open spec fn blank_line_at(bytes: Seq<u8>, i: int) -> bool {
    bytes[i] == 13 && bytes[i + 1] == 10 && bytes[i + 2] == 13 && bytes[i + 3] == 10
}

/// Whether a request head is complete.
pub open spec fn head_ended(bytes: Seq<u8>) -> bool {
    exists|i: int| 0 <= i && i + 4 <= bytes.len() && #[trigger] blank_line_at(bytes, i)
}

/// A request head as it comes in, up to the blank line that ends it. A scrape carries no
/// body.
pub struct RequestHead {
    bytes: Vec<u8>,
}

impl View for RequestHead {
    type V = Seq<u8>;

    closed spec fn view(&self) -> Seq<u8> {
        self.bytes@
    }
}

impl RequestHead {
    /// Nothing has come in.
    pub fn new() -> (r: RequestHead)
        ensures
            r@ == Seq::<u8>::empty(),
    {
        RequestHead { bytes: Vec::new() }
    }

    /// Whether the blank line has come in.
    pub fn is_complete(&self) -> (r: bool)
        ensures
            r == head_ended(self@),
    {
        let mut i: usize = 0;
        while i < self.bytes.len()
            invariant
                i <= self.bytes@.len(),
                forall|k: int|
                    0 <= k < i && k + 4 <= self.bytes@.len() ==> !#[trigger] blank_line_at(
                        self.bytes@,
                        k,
                    ),
            decreases self.bytes@.len() - i,
        {
            if self.bytes.len() - i < 4 {
                return false;
            }
            if self.bytes[i] == 13 && self.bytes[i + 1] == 10 && self.bytes[i + 2] == 13
                && self.bytes[i + 3] == 10 {
                proof {
                    assert(blank_line_at(self@, i as int));
                }
                return true;
            }
            i = i + 1;
        }
        false
    }

    /// Adds a chunk that was read. False once the head is longer than a scrape's.
    pub fn extend(&mut self, chunk: &[u8]) -> (within: bool)
        ensures
            final(self)@ == old(self)@ + chunk@,
            within == (old(self)@.len() + chunk@.len() <= REQUEST_HEAD_LIMIT),
    {
        self.bytes.extend_from_slice(chunk);
        proof {
            assert(self@ =~= old(self)@ + chunk@);
        }
        self.bytes.len() <= REQUEST_HEAD_LIMIT
    }

    /// The head as text, if it is text.
    pub fn into_text(self) -> (r: Option<String>)
        ensures
            match r {
                Some(s) => valid_utf8(self@) && s@ == decode_utf8(self@),
                None => !valid_utf8(self@),
            },
    {
        utf8_text(self.bytes)
    }
}

/// std's `String::from_utf8`: the decoded text, or nothing where the bytes are not valid
/// UTF-8.
#[verifier::external_body]
fn utf8_text(bytes: Vec<u8>) -> (r: Option<String>)
    ensures
        match r {
            Some(s) => valid_utf8(bytes@) && s@ == decode_utf8(bytes@),
            None => !valid_utf8(bytes@),
        },
{
    String::from_utf8(bytes).ok()
}

/// A response ends with its body, and just before it says how many bytes the body has.
pub proof fn law_a_response_declares_its_body_length(
    status: Seq<char>,
    content_type: Seq<char>,
    body: Seq<char>,
)
    ensures
        ({
            let whole = http_message(status, content_type, body);
            let tail = "\r\nContent-Length: "@ + numeral(encode_utf8(body).len())
                + "\r\nConnection: close\r\n\r\n"@ + body;
            &&& whole.len() >= tail.len()
            &&& whole.skip(whole.len() - tail.len()) == tail
        }),
{
    let whole = http_message(status, content_type, body);
    let tail = "\r\nContent-Length: "@ + numeral(encode_utf8(body).len())
        + "\r\nConnection: close\r\n\r\n"@ + body;
    let head = "HTTP/1.1 "@ + status + "\r\nContent-Type: "@ + content_type;
    assert(whole =~= head + tail);
    assert(whole.skip(whole.len() - tail.len()) =~= tail);
}

/// The exposition of any counters holds a value line for each of them.
pub proof fn law_the_exposition_reports_every_counter(
    metrics: MetricsView,
    prefix: Seq<char>,
    average: Seq<char>,
)
    ensures
        holds_text(
            metrics.exposition(prefix, average),
            value_line(prefix, "_events_received_total"@, numeral(metrics.received as nat)),
        ),
        holds_text(
            metrics.exposition(prefix, average),
            value_line(prefix, "_events_emitted_total"@, numeral(metrics.emitted as nat)),
        ),
        holds_text(
            metrics.exposition(prefix, average),
            value_line(prefix, "_events_filtered_total"@, numeral(metrics.filtered as nat)),
        ),
        holds_text(
            metrics.exposition(prefix, average),
            value_line(prefix, "_events_late_total"@, numeral(metrics.late as nat)),
        ),
        holds_text(
            metrics.exposition(prefix, average),
            value_line(prefix, "_processing_time_avg_us"@, average),
        ),
{
    let received = family(
        prefix,
        "_events_received_total"@,
        "Total events received"@,
        "counter"@,
        numeral(metrics.received as nat),
    );
    let emitted = family(
        prefix,
        "_events_emitted_total"@,
        "Total events emitted"@,
        "counter"@,
        numeral(metrics.emitted as nat),
    );
    let filtered = family(
        prefix,
        "_events_filtered_total"@,
        "Total events filtered out"@,
        "counter"@,
        numeral(metrics.filtered as nat),
    );
    let late = family(
        prefix,
        "_events_late_total"@,
        "Total late events"@,
        "counter"@,
        numeral(metrics.late as nat),
    );
    let timed = family(
        prefix,
        "_processing_time_avg_us"@,
        "Average processing time in microseconds"@,
        "gauge"@,
        average,
    );
    let e = Seq::<char>::empty();
    let whole = metrics.exposition(prefix, average);
    assert(whole =~= e + received + (emitted + filtered + late + timed));
    assert(whole =~= received + emitted + (filtered + late + timed));
    assert(whole =~= (received + emitted) + filtered + (late + timed));
    assert(whole =~= (received + emitted + filtered) + late + timed);
    assert(whole =~= (received + emitted + filtered + late) + timed + e);
    lemma_family_ends_in_its_value(
        e,
        prefix,
        "_events_received_total"@,
        "Total events received"@,
        "counter"@,
        numeral(metrics.received as nat),
        emitted + filtered + late + timed,
    );
    lemma_family_ends_in_its_value(
        received,
        prefix,
        "_events_emitted_total"@,
        "Total events emitted"@,
        "counter"@,
        numeral(metrics.emitted as nat),
        filtered + late + timed,
    );
    lemma_family_ends_in_its_value(
        received + emitted,
        prefix,
        "_events_filtered_total"@,
        "Total events filtered out"@,
        "counter"@,
        numeral(metrics.filtered as nat),
        late + timed,
    );
    lemma_family_ends_in_its_value(
        received + emitted + filtered,
        prefix,
        "_events_late_total"@,
        "Total late events"@,
        "counter"@,
        numeral(metrics.late as nat),
        timed,
    );
    lemma_family_ends_in_its_value(
        received + emitted + filtered + late,
        prefix,
        "_processing_time_avg_us"@,
        "Average processing time in microseconds"@,
        "gauge"@,
        average,
        e,
    );
}

/// Whether `part` occurs in `whole`.
pub open spec fn holds_text(whole: Seq<char>, part: Seq<char>) -> bool {
    exists|i: int|
        0 <= i && i + part.len() <= whole.len() && #[trigger] whole.subrange(i, i + part.len())
            == part
}

proof fn lemma_family_ends_in_its_value(
    front: Seq<char>,
    prefix: Seq<char>,
    name: Seq<char>,
    help: Seq<char>,
    kind: Seq<char>,
    value: Seq<char>,
    rest: Seq<char>,
)
    ensures
        holds_text(
            front + family(prefix, name, help, kind, value) + rest,
            value_line(prefix, name, value),
        ),
{
    let whole = front + family(prefix, name, help, kind, value) + rest;
    let line = value_line(prefix, name, value);
    let i = (front + family(prefix, name, help, kind, value)).len() - line.len();
    assert(whole.subrange(i as int, i + line.len()) =~= line);
}

/// A GET for the configured path, with or without a query, is answered with the counters,
/// whatever follows on the request line and below it.
pub proof fn law_a_scrape_is_served(
    path: Seq<char>,
    query: Seq<char>,
    rest: Seq<char>,
    metrics: MetricsView,
    average: Seq<char>,
)
    requires
        path.len() > 0,
        forall|i: int| 0 <= i < path.len() ==> !is_space(#[trigger] path[i]) && path[i] != '?',
        query.len() > 0 ==> query[0] == '?',
        forall|i: int| 0 <= i < query.len() ==> !is_space(#[trigger] query[i]),
        rest.len() > 0 ==> is_space(rest[0]),
    ensures
        response("GET "@ + path + query + rest, path, metrics, average) == http_message(
            "200 OK"@,
            exposition_type(),
            metrics.exposition("fluvius"@, average),
        ),
{
    reveal_strlit("GET ");
    reveal_strlit("GET");
    let head = "GET "@ + path + query + rest;
    let target = path + query;
    let line = up_to(head, '\n');
    let end = 4 + target.len() as int;
    assert(is_space('\n'));
    assert forall|k: int| 4 <= k < end implies !is_space(#[trigger] head[k]) by {
        if k - 4 < path.len() {
            assert(head[k] == path[k - 4]);
        } else {
            assert(head[k] == query[k - 4 - path.len()]);
        }
    }
    assert(head[0] == 'G' && head[1] == 'E' && head[2] == 'T' && head[3] == ' ');
    lemma_find_bounds(head, '\n', 0);
    let cut = find_char(head, '\n', 0);
    assert(cut >= end) by {
        if cut < end {
            assert(head[cut] == '\n');
        }
    }
    assert(line.len() == cut);
    assert forall|k: int| 0 <= k < cut implies #[trigger] line[k] == head[k] by {}
    lemma_first_word(line, 0, 3);
    lemma_skip_space(line, 3);
    if end < line.len() {
        assert(line[end] == rest[0]);
    }
    lemma_first_word(line, 4, end);
    assert(line.subrange(0, 3) =~= "GET"@);
    assert(line.subrange(4, end) =~= target);
    let all = words(line);
    assert(all[0] == "GET"@);
    assert(all[1] == target);
    lemma_find_bounds(target, '?', 0);
    let mark = find_char(target, '?', 0);
    if query.len() > 0 {
        assert(target[path.len() as int] == '?');
        assert(mark <= path.len());
    }
    assert(mark == path.len()) by {
        if mark < path.len() {
            assert(target[mark] == path[mark]);
        }
    }
    assert(target.take(mark) =~= path);
}

/// A request line gives a method and a target; the path is the target up to its query,
/// whatever follows on the line and below it.
proof fn lemma_request_line(
    method: Seq<char>,
    path: Seq<char>,
    query: Seq<char>,
    rest: Seq<char>,
)
    requires
        method.len() > 0,
        forall|i: int| 0 <= i < method.len() ==> !is_space(#[trigger] method[i]),
        path.len() + query.len() > 0,
        forall|i: int| 0 <= i < path.len() ==> !is_space(#[trigger] path[i]) && path[i] != '?',
        query.len() > 0 ==> query[0] == '?',
        forall|i: int| 0 <= i < query.len() ==> !is_space(#[trigger] query[i]),
        rest.len() > 0 ==> is_space(rest[0]),
    ensures
        request_method(method + seq![' '] + path + query + rest) == method,
        request_path(method + seq![' '] + path + query + rest) == path,
{
    let head = method + seq![' '] + path + query + rest;
    let target = path + query;
    let m = method.len() as int;
    let end = m + 1 + target.len();
    assert(is_space('\n') && is_space(' '));
    assert forall|k: int| 0 <= k < m implies #[trigger] head[k] == method[k] by {}
    assert(head[m] == ' ');
    assert forall|k: int| m < k < end implies !is_space(#[trigger] head[k]) by {
        if k - m - 1 < path.len() {
            assert(head[k] == path[k - m - 1]);
        } else {
            assert(head[k] == query[k - m - 1 - path.len()]);
        }
    }
    lemma_find_bounds(head, '\n', 0);
    let cut = find_char(head, '\n', 0);
    assert(cut >= end) by {
        if cut < end {
            assert(head[cut] == '\n');
            if cut < m {
                assert(!is_space(method[cut]));
            }
        }
    }
    let line = up_to(head, '\n');
    assert(line.len() == cut);
    assert forall|k: int| 0 <= k < cut implies #[trigger] line[k] == head[k] by {}
    assert forall|k: int| 0 <= k < m implies !is_space(#[trigger] line[k]) by {
        assert(line[k] == method[k]);
    }
    lemma_first_word(line, 0, m);
    lemma_skip_space(line, m);
    if end < line.len() {
        assert(line[end as int] == rest[0]);
    }
    lemma_first_word(line, m + 1, end as int);
    assert(line.subrange(0, m) =~= method);
    assert(line.subrange(m + 1, end as int) =~= target);
    let all = words(line);
    assert(all[0] == method);
    assert(all[1] == target);
    lemma_find_bounds(target, '?', 0);
    let mark = find_char(target, '?', 0);
    if query.len() > 0 {
        assert(target[path.len() as int] == '?');
        assert(mark <= path.len());
    }
    assert(mark == path.len()) by {
        if mark < path.len() {
            assert(target[mark] == path[mark]);
        }
    }
    assert(target.take(mark) =~= path);
}

/// A request is answered by its method and its path alone: a method other than GET is not
/// allowed, a GET for another path finds nothing, and a GET for the configured path gets the
/// counters.
pub proof fn law_a_request_is_answered_by_its_method_and_path(
    method: Seq<char>,
    asked: Seq<char>,
    query: Seq<char>,
    rest: Seq<char>,
    path: Seq<char>,
    metrics: MetricsView,
    average: Seq<char>,
)
    requires
        method.len() > 0,
        forall|i: int| 0 <= i < method.len() ==> !is_space(#[trigger] method[i]),
        asked.len() + query.len() > 0,
        forall|i: int| 0 <= i < asked.len() ==> !is_space(#[trigger] asked[i]) && asked[i] != '?',
        query.len() > 0 ==> query[0] == '?',
        forall|i: int| 0 <= i < query.len() ==> !is_space(#[trigger] query[i]),
        rest.len() > 0 ==> is_space(rest[0]),
    ensures
        ({
            let answer = response(
                method + seq![' '] + asked + query + rest,
                path,
                metrics,
                average,
            );
            &&& method != "GET"@ ==> answer == http_message(
                "405 Method Not Allowed"@,
                "text/plain"@,
                "only GET is served"@,
            )
            &&& method == "GET"@ && asked != path ==> answer == http_message(
                "404 Not Found"@,
                "text/plain"@,
                "no such path"@,
            )
            &&& method == "GET"@ && asked == path ==> answer == http_message(
                "200 OK"@,
                "text/plain; version=0.0.4; charset=utf-8"@,
                metrics.exposition("fluvius"@, average),
            )
        }),
{
    lemma_request_line(method, asked, query, rest);
}

/// A response begins with its status line and the type of its body.
pub proof fn law_a_response_begins_with_its_status(
    status: Seq<char>,
    content_type: Seq<char>,
    body: Seq<char>,
)
    ensures
        ({
            let whole = http_message(status, content_type, body);
            let front = "HTTP/1.1 "@ + status + "\r\nContent-Type: "@ + content_type;
            &&& whole.len() == front.len() + "\r\nContent-Length: "@.len() + numeral(
                encode_utf8(body).len(),
            ).len() + "\r\nConnection: close\r\n\r\n"@.len() + body.len()
            &&& whole.take(front.len() as int) == front
        }),
{
    let whole = http_message(status, content_type, body);
    let front = "HTTP/1.1 "@ + status + "\r\nContent-Type: "@ + content_type;
    assert(whole.take(front.len() as int) =~= front);
}

/// A counter goes up by what is counted, and past its range starts again from zero.
pub proof fn law_a_counter_goes_up_by_what_is_counted(counter: u64, n: u64)
    ensures
        counter + n < 0x1_0000_0000_0000_0000 ==> counted(counter, n) == counter + n,
        counter + n >= 0x1_0000_0000_0000_0000 ==> counted(counter, n) == counter + n
            - 0x1_0000_0000_0000_0000,
{
}

/// What is counted shows on its own counter and on no other. Counters start at zero.
pub proof fn law_each_counter_counts_its_own(metrics: MetricsView, microseconds: u64)
    ensures
        ({
            let m = metrics;
            let next = m.one_received();
            &&& next.received == counted(m.received, 1)
            &&& next.emitted == m.emitted && next.filtered == m.filtered && next.late == m.late
            &&& next.processing_time_us == m.processing_time_us && next.processing_count
                == m.processing_count
        }),
        ({
            let m = metrics;
            let next = m.one_emitted();
            &&& next.emitted == counted(m.emitted, 1)
            &&& next.received == m.received && next.filtered == m.filtered && next.late == m.late
            &&& next.processing_time_us == m.processing_time_us && next.processing_count
                == m.processing_count
        }),
        ({
            let m = metrics;
            let next = m.one_filtered();
            &&& next.filtered == counted(m.filtered, 1)
            &&& next.received == m.received && next.emitted == m.emitted && next.late == m.late
            &&& next.processing_time_us == m.processing_time_us && next.processing_count
                == m.processing_count
        }),
        ({
            let m = metrics;
            let next = m.one_late();
            &&& next.late == counted(m.late, 1)
            &&& next.received == m.received && next.emitted == m.emitted && next.filtered
                == m.filtered
            &&& next.processing_time_us == m.processing_time_us && next.processing_count
                == m.processing_count
        }),
        ({
            let m = metrics;
            let next = m.one_timed(microseconds);
            &&& next.processing_time_us == counted(m.processing_time_us, microseconds)
            &&& next.processing_count == counted(m.processing_count, 1)
            &&& next.received == m.received && next.emitted == m.emitted && next.filtered
                == m.filtered && next.late == m.late
        }),
        ({
            let clear = MetricsView::clear();
            &&& clear.received == 0 && clear.emitted == 0 && clear.filtered == 0 && clear.late == 0
            &&& clear.processing_time_us == 0 && clear.processing_count == 0
        }),
{
}

proof fn lemma_family_is_its_text(
    prefix: Seq<char>,
    name: Seq<char>,
    help: Seq<char>,
    kind: Seq<char>,
    value: Seq<char>,
)
    ensures
        family(prefix, name, help, kind, value) == metric_text(prefix + name, help, kind, value),
{
    reveal_strlit("\n");
    reveal_strlit("# TYPE ");
    reveal_strlit("\n# TYPE ");
    assert("\n# TYPE "@ =~= "\n"@ + "# TYPE "@);
    assert(family(prefix, name, help, kind, value) =~= metric_text(
        prefix + name,
        help,
        kind,
        value,
    ));
}

proof fn lemma_family_begins_with_its_explanation(
    front: Seq<char>,
    prefix: Seq<char>,
    name: Seq<char>,
    help: Seq<char>,
    kind: Seq<char>,
    value: Seq<char>,
    rest: Seq<char>,
)
    ensures
        explained(
            front + family(prefix, name, help, kind, value) + rest,
            prefix + name,
            help,
            kind,
            value,
        ),
{
    let whole = front + family(prefix, name, help, kind, value) + rest;
    let line = metric_text(prefix + name, help, kind, value);
    lemma_family_is_its_text(prefix, name, help, kind, value);
    let i = front.len() as int;
    assert(whole.subrange(i, i + line.len()) =~= line);
}

/// A metric in words: its help line, its type line and its value line.
pub open spec fn metric_text(
    name: Seq<char>,
    help: Seq<char>,
    kind: Seq<char>,
    value: Seq<char>,
) -> Seq<char> {
    "# HELP "@ + name + " "@ + help + "\n# TYPE "@ + name + " "@ + kind + "\n"@ + name + " "@ + value
        + "\n"@
}

/// Whether a text holds a metric: its help line, its type line and its value line, one after
/// the other.
pub open spec fn explained(
    whole: Seq<char>,
    name: Seq<char>,
    help: Seq<char>,
    kind: Seq<char>,
    value: Seq<char>,
) -> bool {
    holds_text(whole, metric_text(name, help, kind, value))
}

/// The exposition explains each of the counters, the four counts and the average time, before
/// it gives the value.
pub proof fn law_the_exposition_explains_every_counter(
    metrics: MetricsView,
    prefix: Seq<char>,
    average: Seq<char>,
)
    ensures
        ({
            let whole = metrics.exposition(prefix, average);
            &&& explained(
                whole,
                prefix + "_events_received_total"@,
                "Total events received"@,
                "counter"@,
                numeral(metrics.received as nat),
            )
            &&& explained(
                whole,
                prefix + "_events_emitted_total"@,
                "Total events emitted"@,
                "counter"@,
                numeral(metrics.emitted as nat),
            )
            &&& explained(
                whole,
                prefix + "_events_filtered_total"@,
                "Total events filtered out"@,
                "counter"@,
                numeral(metrics.filtered as nat),
            )
            &&& explained(
                whole,
                prefix + "_events_late_total"@,
                "Total late events"@,
                "counter"@,
                numeral(metrics.late as nat),
            )
            &&& explained(
                whole,
                prefix + "_processing_time_avg_us"@,
                "Average processing time in microseconds"@,
                "gauge"@,
                average,
            )
        }),
{
    let received = family(
        prefix,
        "_events_received_total"@,
        "Total events received"@,
        "counter"@,
        numeral(metrics.received as nat),
    );
    let emitted = family(
        prefix,
        "_events_emitted_total"@,
        "Total events emitted"@,
        "counter"@,
        numeral(metrics.emitted as nat),
    );
    let filtered = family(
        prefix,
        "_events_filtered_total"@,
        "Total events filtered out"@,
        "counter"@,
        numeral(metrics.filtered as nat),
    );
    let late = family(
        prefix,
        "_events_late_total"@,
        "Total late events"@,
        "counter"@,
        numeral(metrics.late as nat),
    );
    let timed = family(
        prefix,
        "_processing_time_avg_us"@,
        "Average processing time in microseconds"@,
        "gauge"@,
        average,
    );
    let e = Seq::<char>::empty();
    let whole = metrics.exposition(prefix, average);
    assert(whole =~= e + received + (emitted + filtered + late + timed));
    assert(whole =~= received + emitted + (filtered + late + timed));
    assert(whole =~= (received + emitted) + filtered + (late + timed));
    assert(whole =~= (received + emitted + filtered) + late + timed);
    assert(whole =~= (received + emitted + filtered + late) + timed + e);
    lemma_family_begins_with_its_explanation(
        e,
        prefix,
        "_events_received_total"@,
        "Total events received"@,
        "counter"@,
        numeral(metrics.received as nat),
        emitted + filtered + late + timed,
    );
    lemma_family_begins_with_its_explanation(
        received,
        prefix,
        "_events_emitted_total"@,
        "Total events emitted"@,
        "counter"@,
        numeral(metrics.emitted as nat),
        filtered + late + timed,
    );
    lemma_family_begins_with_its_explanation(
        received + emitted,
        prefix,
        "_events_filtered_total"@,
        "Total events filtered out"@,
        "counter"@,
        numeral(metrics.filtered as nat),
        late + timed,
    );
    lemma_family_begins_with_its_explanation(
        received + emitted + filtered,
        prefix,
        "_events_late_total"@,
        "Total late events"@,
        "counter"@,
        numeral(metrics.late as nat),
        timed,
    );
    lemma_family_begins_with_its_explanation(
        received + emitted + filtered + late,
        prefix,
        "_processing_time_avg_us"@,
        "Average processing time in microseconds"@,
        "gauge"@,
        average,
        e,
    );
}

/// A head is complete once its blank line has come in, whatever comes after it, and stays so;
/// a head without a carriage return is not.
pub proof fn law_a_head_ends_with_its_blank_line(front: Seq<u8>, rest: Seq<u8>)
    ensures
        head_ended(front + seq![13u8, 10u8, 13u8, 10u8] + rest),
        head_ended(front) ==> head_ended(front + rest),
        (forall|i: int| 0 <= i < front.len() ==> #[trigger] front[i] != 13) ==> !head_ended(front),
{
    let whole = front + seq![13u8, 10u8, 13u8, 10u8] + rest;
    assert(blank_line_at(whole, front.len() as int));
    if head_ended(front) {
        let i = choose|i: int| 0 <= i && i + 4 <= front.len() && #[trigger] blank_line_at(front, i);
        assert(blank_line_at(front + rest, i));
    }
}

/// The exposition is the five metrics one after the other, and nothing else.
pub proof fn law_the_exposition_is_five_metrics(
    metrics: MetricsView,
    prefix: Seq<char>,
    average: Seq<char>,
)
    ensures
        metrics.exposition(prefix, average) == metric_text(
            prefix + "_events_received_total"@,
            "Total events received"@,
            "counter"@,
            numeral(metrics.received as nat),
        ) + metric_text(
            prefix + "_events_emitted_total"@,
            "Total events emitted"@,
            "counter"@,
            numeral(metrics.emitted as nat),
        ) + metric_text(
            prefix + "_events_filtered_total"@,
            "Total events filtered out"@,
            "counter"@,
            numeral(metrics.filtered as nat),
        ) + metric_text(
            prefix + "_events_late_total"@,
            "Total late events"@,
            "counter"@,
            numeral(metrics.late as nat),
        ) + metric_text(
            prefix + "_processing_time_avg_us"@,
            "Average processing time in microseconds"@,
            "gauge"@,
            average,
        ),
{
    lemma_family_is_its_text(
        prefix,
        "_events_received_total"@,
        "Total events received"@,
        "counter"@,
        numeral(metrics.received as nat),
    );
    lemma_family_is_its_text(
        prefix,
        "_events_emitted_total"@,
        "Total events emitted"@,
        "counter"@,
        numeral(metrics.emitted as nat),
    );
    lemma_family_is_its_text(
        prefix,
        "_events_filtered_total"@,
        "Total events filtered out"@,
        "counter"@,
        numeral(metrics.filtered as nat),
    );
    lemma_family_is_its_text(
        prefix,
        "_events_late_total"@,
        "Total late events"@,
        "counter"@,
        numeral(metrics.late as nat),
    );
    lemma_family_is_its_text(
        prefix,
        "_processing_time_avg_us"@,
        "Average processing time in microseconds"@,
        "gauge"@,
        average,
    );
}

/// What comes before a character ends at its first occurrence, or is the whole text.
pub proof fn law_a_text_is_cut_at_the_first_occurrence(s: Seq<char>, c: char, rest: Seq<char>)
    requires
        forall|i: int| 0 <= i < s.len() ==> #[trigger] s[i] != c,
    ensures
        up_to(s, c) == s,
        up_to(s + seq![c] + rest, c) == s,
{
    lemma_find_bounds(s, c, 0);
    assert(s.take(s.len() as int) =~= s);
    let whole = s + seq![c] + rest;
    lemma_find_bounds(whole, c, 0);
    let at = find_char(whole, c, 0);
    assert(whole[s.len() as int] == c);
    assert(at == s.len()) by {
        if at < s.len() {
            assert(whole[at] == s[at]);
        }
    }
    assert(whole.take(at) =~= s);
}

/// Whatever a request holds besides, the first two words of its first line decide: the first
/// is the method, the second up to its query the path, and a word that is missing is empty.
pub proof fn law_the_first_two_words_decide_the_answer(
    head: Seq<char>,
    path: Seq<char>,
    metrics: MetricsView,
    average: Seq<char>,
)
    ensures
        ({
            let all = words(up_to(head, '\n'));
            let asked = if all.len() > 1 {
                up_to(all[1], '?')
            } else {
                Seq::empty()
            };
            let answer = response(head, path, metrics, average);
            &&& all.len() == 0 || all[0] != "GET"@ ==> answer == http_message(
                "405 Method Not Allowed"@,
                "text/plain"@,
                "only GET is served"@,
            )
            &&& all.len() > 0 && all[0] == "GET"@ && asked != path ==> answer == http_message(
                "404 Not Found"@,
                "text/plain"@,
                "no such path"@,
            )
            &&& all.len() > 0 && all[0] == "GET"@ && asked == path ==> answer == http_message(
                "200 OK"@,
                "text/plain; version=0.0.4; charset=utf-8"@,
                metrics.exposition("fluvius"@, average),
            )
        }),
{
    reveal_strlit("GET");
    assert("GET"@.len() == 3);
    let all = words(up_to(head, '\n'));
    if all.len() <= 1 {
        assert(up_to(Seq::<char>::empty(), '?') =~= Seq::empty());
    }
}

} // verus!
