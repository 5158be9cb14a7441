//! Bandwidth traces as lists of timestamps.
use crate::error::Error;
use crate::parse::{
    is_digit, law_number_reads_back, law_only_numbers_are_read, number_of, parse_number, trim_text,
    trimmed, NumberFault,
};
use crate::text::{decimal, digits};
use vstd::prelude::*;
use vstd::string::StringExecFns;

verus! {

/// A bandwidth pattern that is repeated.
#[verifier::external_type_specification]
#[verifier::external_body]
pub struct ExRepeatedBwPatternConfig(netem_trace::model::RepeatedBwPatternConfig);

/// The timestamp on a line; white space around it does not count.
pub open spec fn timestamp_on(line: Seq<char>) -> Result<nat, NumberFault> {
    number_of(trimmed(line), u64::MAX as nat)
}

/// Every line up to `n` holds a timestamp.
pub open spec fn readable(lines: Seq<String>, n: int) -> bool {
    forall|i: int| 0 <= i < n ==> timestamp_on((#[trigger] lines[i])@) is Ok
}

/// The message for a line that does not hold a timestamp.
pub open spec fn line_fault(i: nat, filename: Seq<char>, fault: NumberFault) -> Seq<char> {
    "Failed to parse line "@ + digits(i) + " in "@ + filename + ": "@ + fault.words()
}

/// The timestamps on the lines of a file. The first line that does not hold one is named in
/// the error.
pub fn mahimahi_lines_to_pattern(lines: &Vec<String>, filename: &str) -> (r: Result<
    Vec<u64>,
    Error,
>)
    ensures
        r is Ok <==> readable(lines@, lines@.len() as int),
        r is Ok ==> {
            &&& r->Ok_0@.len() == lines@.len()
            &&& forall|i: int|
                0 <= i < lines@.len() ==> timestamp_on((#[trigger] lines@[i])@) == Ok::<
                    nat,
                    NumberFault,
                >(r->Ok_0@[i] as nat)
        },
        r is Err ==> r->Err_0 is ConfigError && exists|i: int|
            {
                &&& 0 <= i < lines@.len()
                &&& readable(lines@, i)
                &&& timestamp_on((#[trigger] lines@[i])@) is Err
                &&& r->Err_0.text() == line_fault(
                    i as nat,
                    filename@,
                    timestamp_on(lines@[i]@)->Err_0,
                )
            },
{
    let mut pattern: Vec<u64> = Vec::new();
    let mut i: usize = 0;
    while i < lines.len()
        invariant
            i <= lines@.len(),
            pattern@.len() == i,
            readable(lines@, i as int),
            forall|k: int|
                0 <= k < i ==> timestamp_on((#[trigger] lines@[k])@) == Ok::<nat, NumberFault>(
                    pattern@[k] as nat,
                ),
        decreases lines@.len() - i,
    {
        let line = trim_text(lines[i].as_str());
        match parse_number(&line, u64::MAX) {
            Ok(timestamp) => {
                pattern.push(timestamp);
            },
            Err(fault) => {
                let text = "Failed to parse line ".to_owned().concat(
                    decimal(i as u64).as_str(),
                ).concat(" in ").concat(filename).concat(": ").concat(fault.text());
                assert(timestamp_on(lines@[i as int]@) is Err);
                return Err(Error::ConfigError(text));
            },
        }
        i = i + 1;
    }
    Ok(pattern)
}

/// A timestamp is followed by a smaller one; zero does not count.
pub open spec fn descends(timestamps: Seq<u64>) -> bool {
    exists|i: int, j: int|
        0 <= i < j < timestamps.len() && 0 < #[trigger] timestamps[j] < #[trigger] timestamps[i]
}

/// No timestamp is past zero.
pub open spec fn takes_no_time(timestamps: Seq<u64>) -> bool {
    forall|i: int| 0 <= i < timestamps.len() ==> #[trigger] timestamps[i] == 0
}

/// What is wrong with the timestamps of a trace, if anything is.
pub open spec fn trace_fault(timestamps: Seq<u64>) -> Option<Seq<char>> {
    if descends(timestamps) {
        Some("timestamps must be monotonically nondecreasing"@)
    } else if takes_no_time(timestamps) {
        Some("trace must last for a nonzero amount of time"@)
    } else {
        None
    }
}

/// The bandwidth in bits per second for each millisecond of a pattern, once through.
pub uninterp spec fn rates_of(pattern: netem_trace::model::RepeatedBwPatternConfig) -> Seq<u64>;

/// How often a pattern is gone through; zero stands for without end.
pub uninterp spec fn rounds_of(pattern: netem_trace::model::RepeatedBwPatternConfig) -> usize;

/// The bits per second of one packet of 1500 bytes in a millisecond.
pub const PACKET_RATE: u64 = 12_000_000;

/// How often `t` is among the timestamps.
pub open spec fn occurrences(timestamps: Seq<u64>, t: u64) -> nat
    decreases timestamps.len(),
{
    if timestamps.len() == 0 {
        0
    } else {
        occurrences(timestamps.drop_last(), t) + if timestamps.last() == t {
            1nat
        } else {
            0
        }
    }
}

/// The last millisecond of a trace.
pub open spec fn duration_of(timestamps: Seq<u64>) -> nat
    decreases timestamps.len(),
{
    if timestamps.len() == 0 {
        0
    } else if timestamps.last() > 0 {
        timestamps.last() as nat
    } else {
        duration_of(timestamps.drop_last())
    }
}

/// How many packets can be sent in millisecond `t` of a trace, counted from 1: one for each
/// time that it is among the timestamps. Those at zero count for the last one.
pub open spec fn opportunities(timestamps: Seq<u64>, t: nat) -> nat {
    occurrences(timestamps, t as u64) + if t == duration_of(timestamps) {
        occurrences(timestamps, 0)
    } else {
        0
    }
}

/// `rates` are those of a trace, millisecond by millisecond.
pub open spec fn replays(rates: Seq<u64>, timestamps: Seq<u64>) -> bool {
    &&& rates.len() == duration_of(timestamps)
    &&& forall|i: int|
        0 <= i < rates.len() ==> #[trigger] rates[i] == PACKET_RATE * opportunities(
            timestamps,
            (i + 1) as nat,
        )
}

/// Makes a bandwidth pattern that repeats forever from timestamps, with
/// `netem_trace::load_mahimahi_trace`. It refuses timestamps that descend and traces that
/// take no time, in these words. Else the pattern has the count zero, by which it is gone
/// through without end, and each timestamp stands for a bandwidth of 12 Mbps in its
/// millisecond. That is stated of traces of less than 2^32 milliseconds only: longer gaps are
/// cut off.
#[verifier::external_body]
fn load_mahimahi_trace(timestamps: Vec<u64>) -> (r: Result<
    netem_trace::model::RepeatedBwPatternConfig,
    &'static str,
>)
    requires
        timestamps@.len() <= u32::MAX,
    ensures
        r is Ok <==> trace_fault(timestamps@) is None,
        r is Err ==> trace_fault(timestamps@) == Some(r->Err_0@),
        r is Ok ==> rounds_of(r->Ok_0) == 0,
        r is Ok && duration_of(timestamps@) <= u32::MAX ==> replays(
            rates_of(r->Ok_0),
            timestamps@,
        ),
{
    netem_trace::load_mahimahi_trace(timestamps, None)
}

/// The bandwidth pattern for a list of timestamps from the file `filename`.
pub fn mahimahi_trace(timestamps: Vec<u64>, filename: &str) -> (r: Result<
    netem_trace::model::RepeatedBwPatternConfig,
    Error,
>)
    requires
        timestamps@.len() <= u32::MAX,
    ensures
        r is Ok <==> trace_fault(timestamps@) is None,
        r is Ok ==> rounds_of(r->Ok_0) == 0,
        r is Ok && duration_of(timestamps@) <= u32::MAX ==> replays(
            rates_of(r->Ok_0),
            timestamps@,
        ),
        r is Err ==> r->Err_0 is ConfigError && r->Err_0.text() == "Failed to load trace file "@
            + filename@ + ": "@ + trace_fault(timestamps@)->0,
{
    match load_mahimahi_trace(timestamps) {
        Ok(trace) => Ok(trace),
        Err(fault) => Err(
            Error::ConfigError(
                "Failed to load trace file ".to_owned().concat(filename).concat(": ").concat(
                    fault,
                ),
            ),
        ),
    }
}

/// How many packets can be sent in the first `n` milliseconds of a trace.
pub open spec fn sent_until(timestamps: Seq<u64>, n: nat) -> nat
    decreases n,
{
    if n == 0 {
        0
    } else {
        sent_until(timestamps, (n - 1) as nat) + opportunities(timestamps, n)
    }
}

/// How often a number from 1 to `n` is among the timestamps.
spec fn listed_until(timestamps: Seq<u64>, n: nat) -> nat
    decreases n,
{
    if n == 0 {
        0
    } else {
        listed_until(timestamps, (n - 1) as nat) + occurrences(timestamps, n as u64)
    }
}

/// One more timestamp is listed once, if it is in the range.
proof fn lemma_listed_once_more(timestamps: Seq<u64>, n: nat)
    requires
        timestamps.len() > 0,
        n <= u64::MAX,
    ensures
        listed_until(timestamps, n) == listed_until(timestamps.drop_last(), n) + if 1
            <= timestamps.last() <= n {
            1nat
        } else {
            0
        },
    decreases n,
{
    if n > 0 {
        lemma_listed_once_more(timestamps, (n - 1) as nat);
    }
}

/// Every timestamp is at zero or in the range, if none is past its end.
proof fn lemma_all_are_listed(timestamps: Seq<u64>, n: nat)
    requires
        n <= u64::MAX,
        forall|i: int| 0 <= i < timestamps.len() ==> #[trigger] timestamps[i] <= n,
    ensures
        listed_until(timestamps, n) + occurrences(timestamps, 0) == timestamps.len(),
    decreases timestamps.len(),
{
    if timestamps.len() > 0 {
        lemma_listed_once_more(timestamps, n);
        let front = timestamps.drop_last();
        assert forall|i: int| 0 <= i < front.len() implies #[trigger] front[i] <= n by {
            assert(front[i] == timestamps[i]);
        }
        lemma_all_are_listed(front, n);
    } else {
        lemma_none_listed(timestamps, n);
    }
}

/// Nothing is listed where there are no timestamps.
proof fn lemma_none_listed(timestamps: Seq<u64>, n: nat)
    requires
        timestamps.len() == 0,
    ensures
        listed_until(timestamps, n) == 0,
    decreases n,
{
    if n > 0 {
        lemma_none_listed(timestamps, (n - 1) as nat);
    }
}

/// The packets of a trace before its end are those of the timestamps; those at zero come with
/// the last millisecond.
proof fn lemma_sent_as_listed(timestamps: Seq<u64>, n: nat)
    requires
        n <= duration_of(timestamps),
    ensures
        sent_until(timestamps, n) == listed_until(timestamps, n) + if n > 0 && n == duration_of(
            timestamps,
        ) {
            occurrences(timestamps, 0)
        } else {
            0
        },
    decreases n,
{
    if n > 0 {
        lemma_sent_as_listed(timestamps, (n - 1) as nat);
    }
}

/// The last millisecond of a trace is the largest of its timestamps.
proof fn lemma_duration_is_largest(timestamps: Seq<u64>)
    requires
        !descends(timestamps),
    ensures
        duration_of(timestamps) <= u64::MAX,
        forall|i: int|
            0 <= i < timestamps.len() ==> #[trigger] timestamps[i] <= duration_of(timestamps),
        duration_of(timestamps) > 0 ==> timestamps.contains(duration_of(timestamps) as u64),
        duration_of(timestamps) == 0 <==> takes_no_time(timestamps),
    decreases timestamps.len(),
{
    if timestamps.len() > 0 {
        let last = timestamps.len() - 1;
        if timestamps.last() > 0 {
            assert forall|i: int| 0 <= i < timestamps.len() implies #[trigger] timestamps[i]
                <= duration_of(timestamps) by {
                if timestamps[i] > timestamps[last] {
                    assert(0 < timestamps[last] < timestamps[i]);
                }
            }
            assert(timestamps[last] == duration_of(timestamps));
        } else {
            let front = timestamps.drop_last();
            assert(!descends(front)) by {
                if descends(front) {
                    let (i, j) = choose|i: int, j: int|
                        0 <= i < j < front.len() && 0 < #[trigger] front[j] < #[trigger] front[i];
                    assert(0 < timestamps[j] < timestamps[i]);
                }
            }
            lemma_duration_is_largest(front);
            assert forall|i: int| 0 <= i < timestamps.len() implies #[trigger] timestamps[i]
                <= duration_of(timestamps) by {
                if i < last {
                    assert(front[i] == timestamps[i]);
                }
            }
            if duration_of(front) > 0 {
                let k = front.index_of(duration_of(front) as u64);
                assert(timestamps[k] == front[k]);
                assert(timestamps[k] != 0);
            } else {
                assert forall|i: int| 0 <= i < timestamps.len() implies #[trigger] timestamps[i]
                    == 0 by {
                    if i < last {
                        assert(front[i] == timestamps[i]);
                    }
                }
            }
        }
    }
}

/// Each timestamp of a trace is an opportunity to send one packet, and there are no others: in
/// one round through the trace, which lasts until the largest timestamp, as many packets can
/// be sent as there are timestamps.
pub proof fn law_each_timestamp_sends_one_packet(timestamps: Seq<u64>)
    requires
        trace_fault(timestamps) is None,
    ensures
        sent_until(timestamps, duration_of(timestamps)) == timestamps.len(),
        timestamps.contains(duration_of(timestamps) as u64),
        forall|i: int|
            0 <= i < timestamps.len() ==> #[trigger] timestamps[i] <= duration_of(timestamps),
{
    lemma_duration_is_largest(timestamps);
    lemma_all_are_listed(timestamps, duration_of(timestamps));
    lemma_sent_as_listed(timestamps, duration_of(timestamps));
}

/// The rate of a millisecond lets through what can be sent in it: packets of 1500 bytes, of 8
/// bits each, a thousand times in a second.
pub proof fn law_rate_lets_the_packets_through(rates: Seq<u64>, timestamps: Seq<u64>, i: int)
    requires
        replays(rates, timestamps),
        0 <= i < duration_of(timestamps),
    ensures
        rates[i] == opportunities(timestamps, (i + 1) as nat) * 1500 * 8 * 1000,
        i + 1 < duration_of(timestamps) && !timestamps.contains((i + 1) as u64) ==> rates[i] == 0,
{
    if !timestamps.contains((i + 1) as u64) {
        lemma_absent(timestamps, (i + 1) as u64);
    }
}

/// What is not among the timestamps does not occur.
proof fn lemma_absent(timestamps: Seq<u64>, t: u64)
    requires
        !timestamps.contains(t),
    ensures
        occurrences(timestamps, t) == 0,
    decreases timestamps.len(),
{
    if timestamps.len() > 0 {
        let front = timestamps.drop_last();
        assert(timestamps[timestamps.len() - 1] != t);
        assert(!front.contains(t)) by {
            if front.contains(t) {
                let k = front.index_of(t);
                assert(timestamps[k] == t);
            }
        }
        lemma_absent(front, t);
    }
}

/// White space around a timestamp does not count, and a timestamp reads back as it was
/// written.
pub proof fn law_timestamp_reads_back(n: u64)
    ensures
        timestamp_on(digits(n as nat)) == Ok::<nat, NumberFault>(n as nat),
        timestamp_on(seq![' '] + digits(n as nat)) == Ok::<nat, NumberFault>(n as nat),
        timestamp_on(digits(n as nat).push('\n')) == Ok::<nat, NumberFault>(n as nat),
{
    let s = digits(n as nat);
    law_number_reads_back(n as nat, u64::MAX as nat);
    law_only_numbers_are_read(s, n as nat, u64::MAX as nat);
    assert(is_digit(s[0]) && is_digit(s[s.len() - 1]));
    assert(trimmed(s) == s);
    assert((seq![' '] + s).drop_first() =~= s);
    assert(s.push('\n').drop_last() =~= s);
    assert(s.push('\n')[0] == s[0]);
}

} // verus!
