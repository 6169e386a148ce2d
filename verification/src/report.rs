//! The serialized report: spec functions give the exact text of the
//! JSON line that a suite emits, and the builders here are verified to
//! produce that text character for character.
//!
//! Durations appear in the report as a whole number of nanoseconds.

use crate::Benchmark;
use crate::BenchmarkResult;
use crate::BenchmarkRun;
use vstd::prelude::*;
use vstd::string::StrSliceExecFns;
use vstd::string::StringExecFns;

verus! {

/// Relies on `String::push`: appends the given character to the end of
/// the string.
pub assume_specification[ String::push ](s: &mut String, ch: char)
    ensures
        final(s)@ == old(s)@.push(ch),
;

/// The character for a decimal digit.
pub open spec fn dec_digit(d: nat) -> char {
    if d == 0 {
        '0'
    } else if d == 1 {
        '1'
    } else if d == 2 {
        '2'
    } else if d == 3 {
        '3'
    } else if d == 4 {
        '4'
    } else if d == 5 {
        '5'
    } else if d == 6 {
        '6'
    } else if d == 7 {
        '7'
    } else if d == 8 {
        '8'
    } else {
        '9'
    }
}

/// The character for a hexadecimal digit (lower case).
pub open spec fn hex_digit(d: nat) -> char {
    if d < 10 {
        dec_digit(d)
    } else if d == 10 {
        'a'
    } else if d == 11 {
        'b'
    } else if d == 12 {
        'c'
    } else if d == 13 {
        'd'
    } else if d == 14 {
        'e'
    } else {
        'f'
    }
}

/// The usual decimal rendering of `n`, most significant digit first,
/// with no leading zeros (a single `'0'` for zero).
pub open spec fn dec_str(n: nat) -> Seq<char>
    decreases n,
{
    if n < 10 {
        seq![dec_digit(n)]
    } else {
        dec_str(n / 10).push(dec_digit(n % 10))
    }
}

/// How one character appears inside a JSON string literal: quote and
/// backslash get a backslash escape, control characters the four-digit
/// `\u00..` form, everything else stands as itself.
pub open spec fn json_escape_char(c: char) -> Seq<char> {
    if c == '"' {
        seq!['\\', '"']
    } else if c == '\\' {
        seq!['\\', '\\']
    } else if (c as u32) < 32 {
        seq!['\\', 'u', '0', '0', hex_digit((c as u32) as nat / 16), hex_digit((c as u32) as nat % 16)]
    } else {
        seq![c]
    }
}

/// The body of a JSON string literal holding the text `s`.
pub open spec fn json_escape(s: Seq<char>) -> Seq<char>
    decreases s.len(),
{
    if s.len() == 0 {
        Seq::empty()
    } else {
        json_escape(s.drop_last()) + json_escape_char(s.last())
    }
}

/// A complete JSON string literal holding the text `s`.
pub open spec fn json_string(s: Seq<char>) -> Seq<char> {
    seq!['"'] + json_escape(s) + seq!['"']
}

/// The decimal digit `d` as a character.
fn dec_digit_char(d: u128) -> (c: char)
    requires
        d < 10,
    ensures
        c == dec_digit(d as nat),
{
    if d == 0 {
        '0'
    } else if d == 1 {
        '1'
    } else if d == 2 {
        '2'
    } else if d == 3 {
        '3'
    } else if d == 4 {
        '4'
    } else if d == 5 {
        '5'
    } else if d == 6 {
        '6'
    } else if d == 7 {
        '7'
    } else if d == 8 {
        '8'
    } else {
        '9'
    }
}

/// The hexadecimal digit `d` as a character.
fn hex_digit_char(d: u32) -> (c: char)
    requires
        d < 16,
    ensures
        c == hex_digit(d as nat),
{
    if d < 10 {
        dec_digit_char(d as u128)
    } else if d == 10 {
        'a'
    } else if d == 11 {
        'b'
    } else if d == 12 {
        'c'
    } else if d == 13 {
        'd'
    } else if d == 14 {
        'e'
    } else {
        'f'
    }
}

/// Appends the decimal rendering of `n`.
fn push_dec(out: &mut String, n: u128)
    ensures
        final(out)@ == old(out)@ + dec_str(n as nat),
    decreases n,
{
    if n >= 10 {
        push_dec(out, n / 10);
        out.push(dec_digit_char(n % 10));
        proof {
            assert(final(out)@ =~= old(out)@ + dec_str(n as nat));
        }
    } else {
        out.push(dec_digit_char(n));
        proof {
            assert(final(out)@ =~= old(out)@ + dec_str(n as nat));
        }
    }
}

/// Appends the escaped body of a JSON string literal holding `s`.
fn push_escaped(out: &mut String, s: &str)
    ensures
        final(out)@ == old(out)@ + json_escape(s@),
{
    let len = s.unicode_len();
    let mut i: usize = 0;
    while i < len
        invariant
            len == s@.len(),
            i <= len,
            out@ == old(out)@ + json_escape(s@.take(i as int)),
        decreases len - i,
    {
        let c = s.get_char(i);
        let ghost pre = out@;
        if c == '"' {
            out.push('\\');
            out.push('"');
        } else if c == '\\' {
            out.push('\\');
            out.push('\\');
        } else if (c as u32) < 32 {
            out.push('\\');
            out.push('u');
            out.push('0');
            out.push('0');
            out.push(hex_digit_char((c as u32) / 16));
            out.push(hex_digit_char((c as u32) % 16));
        } else {
            out.push(c);
        }
        proof {
            assert(out@ =~= pre + json_escape_char(c));
            assert(s@.take(i + 1).drop_last() =~= s@.take(i as int));
            assert(out@ =~= old(out)@ + json_escape(s@.take(i + 1)));
        }
        i += 1;
    }
    proof {
        assert(s@.take(len as int) =~= s@);
    }
}

/// Appends a complete JSON string literal holding `s`.
fn push_json_string(out: &mut String, s: &str)
    ensures
        final(out)@ == old(out)@ + json_string(s@),
{
    out.push('"');
    push_escaped(out, s);
    out.push('"');
    proof {
        assert(final(out)@ =~= old(out)@ + json_string(s@));
    }
}

/// One `"key":value` pair inside the metrics object.
pub open spec fn metric_item(e: (String, usize)) -> Seq<char> {
    json_string(e.0@) + seq![':'] + dec_str(e.1 as nat)
}

/// The comma-separated metric pairs, in the order they stand in the run.
pub open spec fn metric_items(s: Seq<(String, usize)>) -> Seq<char>
    decreases s.len(),
{
    if s.len() == 0 {
        Seq::empty()
    } else if s.len() == 1 {
        metric_item(s[0])
    } else {
        metric_items(s.drop_last()) + seq![','] + metric_item(s.last())
    }
}

/// The JSON object holding a run's metrics.
pub open spec fn metrics_json(s: Seq<(String, usize)>) -> Seq<char> {
    seq!['{'] + metric_items(s) + seq!['}']
}

/// The JSON object for one run.
pub open spec fn run_json(r: BenchmarkRun) -> Seq<char> {
    "{\"name\":"@ + json_string(r.name@) + ",\"param\":"@ + json_string(r.param@) + ",\"time\":"@
        + dec_str(r.time_ns as nat) + ",\"metrics\":"@ + metrics_json(r.metrics@) + "}"@
}

/// The JSON object for one result.
pub open spec fn result_json(res: BenchmarkResult) -> Seq<char> {
    "{\"name\":"@ + json_string(res.name@) + ",\"run\":"@ + run_json(res.run) + "}"@
}

/// One timing entry: the label paired with its result, as a two-element
/// JSON array.
pub open spec fn entry_json(e: (String, BenchmarkResult)) -> Seq<char> {
    seq!['['] + json_string(e.0@) + seq![','] + result_json(e.1) + seq![']']
}

/// The comma-separated timing entries, in registration order.
pub open spec fn entry_items(s: Seq<(String, BenchmarkResult)>) -> Seq<char>
    decreases s.len(),
{
    if s.len() == 0 {
        Seq::empty()
    } else if s.len() == 1 {
        entry_json(s[0])
    } else {
        entry_items(s.drop_last()) + seq![','] + entry_json(s.last())
    }
}

/// The JSON array holding every timing entry.
pub open spec fn timings_json(s: Seq<(String, BenchmarkResult)>) -> Seq<char> {
    seq!['['] + entry_items(s) + seq![']']
}

/// The whole report line for a suite.
pub open spec fn report_json(b: Benchmark) -> Seq<char> {
    "{\"name\":"@ + json_string(b.name@) + ",\"timings\":"@ + timings_json(b.timings@) + "}"@
}

/// Appends the metrics object of a run.
fn push_metrics(out: &mut String, ms: &Vec<(String, usize)>)
    ensures
        final(out)@ == old(out)@ + metrics_json(ms@),
{
    out.push('{');
    let mut i: usize = 0;
    while i < ms.len()
        invariant
            i <= ms@.len(),
            out@ == old(out)@ + seq!['{'] + metric_items(ms@.take(i as int)),
        decreases ms@.len() - i,
    {
        let ghost pre = out@;
        if i > 0 {
            out.push(',');
        }
        let pair = &ms[i];
        push_json_string(out, pair.0.as_str());
        out.push(':');
        push_dec(out, pair.1 as u128);
        proof {
            assert(out@ =~= if i == 0 {
                pre + metric_item(ms@[i as int])
            } else {
                pre + seq![','] + metric_item(ms@[i as int])
            });
            assert(ms@.take(i + 1).drop_last() =~= ms@.take(i as int));
            assert(out@ =~= old(out)@ + seq!['{'] + metric_items(ms@.take(i + 1)));
        }
        i += 1;
    }
    out.push('}');
    proof {
        assert(ms@.take(ms@.len() as int) =~= ms@);
        assert(final(out)@ =~= old(out)@ + metrics_json(ms@));
    }
}

/// Appends the JSON object for one run.
fn push_run(out: &mut String, r: &BenchmarkRun)
    ensures
        final(out)@ == old(out)@ + run_json(*r),
{
    out.append("{\"name\":");
    push_json_string(out, r.name.as_str());
    out.append(",\"param\":");
    push_json_string(out, r.param.as_str());
    out.append(",\"time\":");
    push_dec(out, r.time_ns);
    out.append(",\"metrics\":");
    push_metrics(out, &r.metrics);
    out.append("}");
    proof {
        assert(final(out)@ =~= old(out)@ + run_json(*r));
    }
}

/// Appends the JSON object for one result.
fn push_result(out: &mut String, res: &BenchmarkResult)
    ensures
        final(out)@ == old(out)@ + result_json(*res),
{
    out.append("{\"name\":");
    push_json_string(out, res.name.as_str());
    out.append(",\"run\":");
    push_run(out, &res.run);
    out.append("}");
    proof {
        assert(final(out)@ =~= old(out)@ + result_json(*res));
    }
}

/// Appends the timings array, one entry per registered result, in
/// registration order.
fn push_timings(out: &mut String, ts: &Vec<(String, BenchmarkResult)>)
    ensures
        final(out)@ == old(out)@ + timings_json(ts@),
{
    out.push('[');
    let mut i: usize = 0;
    while i < ts.len()
        invariant
            i <= ts@.len(),
            out@ == old(out)@ + seq!['['] + entry_items(ts@.take(i as int)),
        decreases ts@.len() - i,
    {
        let ghost pre = out@;
        if i > 0 {
            out.push(',');
        }
        let entry = &ts[i];
        out.push('[');
        push_json_string(out, entry.0.as_str());
        out.push(',');
        push_result(out, &entry.1);
        out.push(']');
        proof {
            assert(out@ =~= if i == 0 {
                pre + entry_json(ts@[i as int])
            } else {
                pre + seq![','] + entry_json(ts@[i as int])
            });
            assert(ts@.take(i + 1).drop_last() =~= ts@.take(i as int));
            assert(out@ =~= old(out)@ + seq!['['] + entry_items(ts@.take(i + 1)));
        }
        i += 1;
    }
    out.push(']');
    proof {
        assert(ts@.take(ts@.len() as int) =~= ts@);
        assert(final(out)@ =~= old(out)@ + timings_json(ts@));
    }
}

/// Holds when `needle` occurs contiguously somewhere inside `hay`.
pub open spec fn contains_seq(hay: Seq<char>, needle: Seq<char>) -> bool {
    exists|k: int|
        0 <= k && k + needle.len() <= hay.len() && #[trigger] hay.subrange(k, k + needle.len())
            == needle
}

proof fn lemma_contains_self(s: Seq<char>)
    ensures
        contains_seq(s, s),
{
    let k: int = 0;
    assert(s.subrange(k, k + s.len()) =~= s);
}

/// Containment survives concatenation on either side.
proof fn lemma_contains_extend(a: Seq<char>, b: Seq<char>, needle: Seq<char>)
    requires
        contains_seq(a, needle) || contains_seq(b, needle),
    ensures
        contains_seq(a + b, needle),
{
    if contains_seq(a, needle) {
        let k = choose|k: int|
            0 <= k && k + needle.len() <= a.len() && #[trigger] a.subrange(k, k + needle.len())
            == needle;
        assert((a + b).subrange(k, k + needle.len()) =~= a.subrange(k, k + needle.len()));
    } else {
        let k = choose|k: int|
            0 <= k && k + needle.len() <= b.len() && #[trigger] b.subrange(k, k + needle.len())
            == needle;
        assert((a + b).subrange(a.len() + k, a.len() + k + needle.len())
            =~= b.subrange(k, k + needle.len()));
    }
}

/// Containment is transitive.
proof fn lemma_contains_trans(a: Seq<char>, b: Seq<char>, c: Seq<char>)
    requires
        contains_seq(a, b),
        contains_seq(b, c),
    ensures
        contains_seq(a, c),
{
    let m = choose|m: int|
        0 <= m && m + b.len() <= a.len() && #[trigger] a.subrange(m, m + b.len()) == b;
    let k = choose|k: int|
        0 <= k && k + c.len() <= b.len() && #[trigger] b.subrange(k, k + c.len()) == c;
    assert(a.subrange(m + k, m + k + c.len()) =~= b.subrange(k, k + c.len()));
}

/// What a middle piece contains, the whole `pre + mid + post` contains.
proof fn lemma_contains_via(
    hay: Seq<char>,
    pre: Seq<char>,
    mid: Seq<char>,
    post: Seq<char>,
    needle: Seq<char>,
)
    requires
        hay == pre + mid + post,
        contains_seq(mid, needle),
    ensures
        contains_seq(hay, needle),
{
    lemma_contains_extend(pre, mid, needle);
    lemma_contains_extend(pre + mid, post, needle);
}

/// Each metric pair's text occurs in the joined metric pairs.
proof fn lemma_metric_items_contain(s: Seq<(String, usize)>, j: int)
    requires
        0 <= j < s.len(),
    ensures
        contains_seq(metric_items(s), metric_item(s[j])),
    decreases s.len(),
{
    if s.len() == 1 {
        lemma_contains_self(metric_item(s[0]));
    } else if j == s.len() - 1 {
        lemma_contains_self(metric_item(s.last()));
        lemma_contains_extend(
            metric_items(s.drop_last()) + seq![','],
            metric_item(s.last()),
            metric_item(s.last()),
        );
    } else {
        lemma_metric_items_contain(s.drop_last(), j);
        assert(metric_items(s)
            =~= metric_items(s.drop_last()) + (seq![','] + metric_item(s.last())));
        lemma_contains_extend(
            metric_items(s.drop_last()),
            seq![','] + metric_item(s.last()),
            metric_item(s.drop_last()[j]),
        );
    }
}

/// Each timing entry's text occurs in the joined timing entries.
proof fn lemma_entry_items_contain(s: Seq<(String, BenchmarkResult)>, i: int)
    requires
        0 <= i < s.len(),
    ensures
        contains_seq(entry_items(s), entry_json(s[i])),
    decreases s.len(),
{
    if s.len() == 1 {
        lemma_contains_self(entry_json(s[0]));
    } else if i == s.len() - 1 {
        lemma_contains_self(entry_json(s.last()));
        lemma_contains_extend(
            entry_items(s.drop_last()) + seq![','],
            entry_json(s.last()),
            entry_json(s.last()),
        );
    } else {
        lemma_entry_items_contain(s.drop_last(), i);
        assert(entry_items(s)
            =~= entry_items(s.drop_last()) + (seq![','] + entry_json(s.last())));
        lemma_contains_extend(
            entry_items(s.drop_last()),
            seq![','] + entry_json(s.last()),
            entry_json(s.drop_last()[i]),
        );
    }
}

/// The report text carries the suite's name as a JSON string literal.
pub proof fn lemma_report_contains_name(b: Benchmark)
    ensures
        contains_seq(report_json(b), json_string(b.name@)),
{
    assert(report_json(b) == "{\"name\":"@ + json_string(b.name@) + (",\"timings\":"@
        + timings_json(b.timings@) + "}"@)) by {
        assert(report_json(b) =~= "{\"name\":"@ + json_string(b.name@) + (",\"timings\":"@
            + timings_json(b.timings@) + "}"@));
    }
    lemma_contains_self(json_string(b.name@));
    lemma_contains_via(
        report_json(b),
        "{\"name\":"@,
        json_string(b.name@),
        ",\"timings\":"@ + timings_json(b.timings@) + "}"@,
        json_string(b.name@),
    );
}

/// The report text carries every logged metric as its literal
/// `"key":value` pair: the one registration `i` logged under position
/// `j` of its run's metrics.
pub proof fn lemma_report_contains_metric(b: Benchmark, i: int, j: int)
    requires
        0 <= i < b.timings@.len(),
        0 <= j < b.timings@[i].1.run.metrics@.len(),
    ensures
        contains_seq(report_json(b), metric_item(b.timings@[i].1.run.metrics@[j])),
{
    let e = b.timings@[i];
    let r = e.1.run;
    let needle = metric_item(r.metrics@[j]);
    lemma_metric_items_contain(r.metrics@, j);
    lemma_contains_via(
        metrics_json(r.metrics@),
        seq!['{'],
        metric_items(r.metrics@),
        seq!['}'],
        needle,
    );
    lemma_contains_via(
        run_json(r),
        "{\"name\":"@ + json_string(r.name@) + ",\"param\":"@ + json_string(r.param@)
            + ",\"time\":"@ + dec_str(r.time_ns as nat) + ",\"metrics\":"@,
        metrics_json(r.metrics@),
        "}"@,
        needle,
    );
    lemma_contains_via(
        result_json(e.1),
        "{\"name\":"@ + json_string(e.1.name@) + ",\"run\":"@,
        run_json(r),
        "}"@,
        needle,
    );
    lemma_contains_via(
        entry_json(e),
        seq!['['] + json_string(e.0@) + seq![','],
        result_json(e.1),
        seq![']'],
        needle,
    );
    lemma_entry_items_contain(b.timings@, i);
    lemma_contains_trans(entry_items(b.timings@), entry_json(e), needle);
    lemma_contains_via(
        timings_json(b.timings@),
        seq!['['],
        entry_items(b.timings@),
        seq![']'],
        needle,
    );
    assert(report_json(b) == "{\"name\":"@ + json_string(b.name@) + ",\"timings\":"@
        + timings_json(b.timings@) + "}"@);
    lemma_contains_via(
        report_json(b),
        "{\"name\":"@ + json_string(b.name@) + ",\"timings\":"@,
        timings_json(b.timings@),
        "}"@,
        needle,
    );
}

impl Benchmark {
    /// The report line that the suite emits: the suite's name and its
    /// ordered timing entries, as one JSON object. Reading it changes
    /// nothing; the embedding process writes the line to its output
    /// stream.
    pub fn render_report(&self) -> (r: String)
        ensures
            r@ == report_json(*self),
    {
        let mut out = String::new();
        out.append("{\"name\":");
        push_json_string(&mut out, self.name.as_str());
        out.append(",\"timings\":");
        push_timings(&mut out, &self.timings);
        out.append("}");
        proof {
            assert(out@ =~= report_json(*self));
        }
        out
    }
}

} // verus!
