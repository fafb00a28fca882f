//! What a probe of the sandbox prints.
use vstd::prelude::*;
use vstd::string::StringExecFns;

use crate::error::{ErrorView, SandboxError};
use crate::linux::process::{after_sign, all_digits, digits_value, is_digit};
use crate::output::SandboxExecOutput;
use crate::probe::commands::NETWORK_PROBE_FLAG;
use crate::text::{
    blank, chars_of, contains_text, decimal, has_text, is_blank, join, join_texts, number,
    same_text, signed_decimal, signed_number, split_text, texts, trim, trimmed,
};

verus! {

/// A text on one line: line feeds and carriage returns become spaces.
pub open spec fn on_one_line(s: Seq<char>) -> Seq<char> {
    Seq::new(
        s.len(),
        |i: int|
            if s[i] == '\n' || s[i] == '\r' {
                ' '
            } else {
                s[i]
            },
    )
}

/// Puts a text on one line.
pub fn sanitize_probe_message(message: &str) -> (r: String)
    ensures
        r@ == on_one_line(message@),
{
    let v = chars_of(message);
    let mut r = String::new();
    for i in 0..v.len()
        invariant
            v@ == message@,
            r@ =~= on_one_line(message@).take(i as int),
    {
        if v[i] == '\n' || v[i] == '\r' {
            r.push(' ');
        } else {
            r.push(v[i]);
        }
    }
    r
}

/// How a result word is written with its details.
pub open spec fn with_detail(word: Seq<char>, detail: Seq<char>) -> Seq<char> {
    word + "("@ + on_one_line(detail) + ")"@
}

fn detailed(word: &str, detail: &str) -> (r: String)
    ensures
        r@ == with_detail(word@, detail@),
{
    let mut r = word.to_owned();
    r.append("(");
    r.append(sanitize_probe_message(detail).as_str());
    r.append(")");
    r
}

/// The word for the exit code of a command that failed.
pub open spec fn failed_command(exit_code: i32) -> Seq<char> {
    "command_failed(exit="@ + signed_decimal(exit_code as int) + ")"@
}

/// The words for an error on a Unix system. `debug` is the error in its long form, for errors that
/// are not expected there.
pub open spec fn unix_error_words(e: ErrorView, debug: Seq<char>) -> Seq<char> {
    match e {
        ErrorView::InvalidRequest(m) => with_detail("invalid_request"@, m),
        ErrorView::Denied(m) => with_detail("denied"@, m),
        ErrorView::Unavailable(m) => with_detail("unavailable"@, m),
        ErrorView::Io(_, _, m) => with_detail("io_error"@, m),
        _ => with_detail("unexpected"@, debug),
    }
}

/// The words for an error on Windows.
pub open spec fn windows_error_words(e: ErrorView, debug: Seq<char>) -> Seq<char> {
    match e {
        ErrorView::Windows(m) => with_detail("windows_error"@, m),
        _ => unix_error_words(e, debug),
    }
}

fn unix_error(e: &SandboxError, debug: &str) -> (r: String)
    ensures
        r@ == unix_error_words(e@, debug@),
{
    match e {
        SandboxError::InvalidRequest(m) => detailed("invalid_request", m.as_str()),
        SandboxError::Denied(m) => detailed("denied", m.as_str()),
        SandboxError::Unavailable(m) => detailed("unavailable", m.as_str()),
        SandboxError::Io(f) => detailed("io_error", f.message.as_str()),
        _ => detailed("unexpected", debug),
    }
}

fn windows_error(e: &SandboxError, debug: &str) -> (r: String)
    ensures
        r@ == windows_error_words(e@, debug@),
{
    match e {
        SandboxError::Windows(m) => detailed("windows_error", m.as_str()),
        _ => unix_error(e, debug),
    }
}

fn show_exit(exit_code: i32) -> (r: String)
    ensures
        r@ == if exit_code == 0 {
            "runnable"@
        } else {
            failed_command(exit_code)
        },
{
    if exit_code == 0 {
        return "runnable".to_owned();
    }
    let mut r = "command_failed(exit=".to_owned();
    r.append(signed_number(exit_code as i64).as_str());
    r.append(")");
    r
}

/// The words for the result of a run on a Unix system.
pub fn render_unix_matrix_result(
    result: &Result<SandboxExecOutput, SandboxError>,
    debug: &str,
) -> (r: String)
    ensures
        match *result {
            Ok(output) => r@ == if output.exit_code == 0 {
                "runnable"@
            } else {
                failed_command(output.exit_code)
            },
            Err(e) => r@ == unix_error_words(e@, debug@),
        },
{
    match result {
        Ok(output) => show_exit(output.exit_code),
        Err(e) => unix_error(e, debug),
    }
}

/// The words for the result of a run on Windows.
pub fn render_windows_matrix_result(
    result: &Result<SandboxExecOutput, SandboxError>,
    debug: &str,
) -> (r: String)
    ensures
        match *result {
            Ok(output) => r@ == if output.exit_code == 0 {
                "runnable"@
            } else {
                failed_command(output.exit_code)
            },
            Err(e) => r@ == windows_error_words(e@, debug@),
        },
{
    match result {
        Ok(output) => show_exit(output.exit_code),
        Err(e) => windows_error(e, debug),
    }
}

/// How many bytes of a detail are shown.
pub const DETAIL_BYTES: usize = 160;

/// How many bytes a character takes up in UTF-8.
pub open spec fn char_bytes(c: char) -> nat {
    if (c as u32) < 0x80 {
        1
    } else if (c as u32) < 0x800 {
        2
    } else if (c as u32) < 0x10000 {
        3
    } else {
        4
    }
}

/// How many bytes a text takes up in UTF-8.
pub open spec fn text_bytes(s: Seq<char>) -> nat
    decreases s.len(),
{
    if s.len() == 0 {
        0
    } else {
        text_bytes(s.drop_last()) + char_bytes(s.last())
    }
}

/// The longest start of a text that fits into the given bytes.
pub open spec fn fitting_start(s: Seq<char>, limit: nat) -> Seq<char>
    decreases s.len(),
{
    if text_bytes(s) <= limit {
        s
    } else if s.len() == 0 {
        s
    } else {
        fitting_start(s.drop_last(), limit)
    }
}

/// A detail, cut where it is long; an empty one is named.
pub open spec fn shortened(detail: Seq<char>) -> Seq<char> {
    if detail.len() == 0 {
        "none"@
    } else if text_bytes(detail) <= DETAIL_BYTES {
        detail
    } else {
        fitting_start(detail, DETAIL_BYTES as nat) + "..."@
    }
}

/// A detail that can be cut: it is short, or one of its characters ends where it is cut.
pub open spec fn can_be_cut(detail: Seq<char>) -> bool {
    text_bytes(detail) <= DETAIL_BYTES || exists|n: int|
        0 <= n <= detail.len() && text_bytes(#[trigger] detail.take(n)) == DETAIL_BYTES
}

fn bytes_of_char(c: char) -> (r: usize)
    ensures
        r == char_bytes(c),
        r <= 4,
{
    let n: u32 = c as u32;
    if n < 0x80 {
        1
    } else if n < 0x800 {
        2
    } else if n < 0x10000 {
        3
    } else {
        4
    }
}

proof fn lemma_text_bytes_grow(s: Seq<char>, n: int)
    requires
        0 <= n <= s.len(),
    ensures
        text_bytes(s.take(n)) <= text_bytes(s),
    decreases s.len(),
{
    if n < s.len() {
        assert(s.drop_last().take(n) =~= s.take(n));
        lemma_text_bytes_grow(s.drop_last(), n);
    } else {
        assert(s.take(n) =~= s);
    }
}

proof fn lemma_fitting_start(s: Seq<char>, limit: nat, n: int)
    requires
        0 <= n < s.len(),
        text_bytes(s.take(n)) <= limit,
        text_bytes(s.take(n + 1)) > limit,
    ensures
        text_bytes(s) > limit,
        fitting_start(s, limit) == s.take(n),
    decreases s.len(),
{
    lemma_text_bytes_grow(s, n + 1);
    if n + 1 == s.len() {
        assert(s.drop_last() =~= s.take(n));
        reveal_with_fuel(fitting_start, 2);
    } else {
        assert(s.drop_last().take(n) =~= s.take(n));
        assert(s.drop_last().take(n + 1) =~= s.take(n + 1));
        lemma_fitting_start(s.drop_last(), limit, n);
    }
}

/// Whether a detail can be cut.
pub fn detail_can_be_cut(detail: &str) -> (r: bool)
    ensures
        r == can_be_cut(detail@),
{
    let v = chars_of(detail);
    let mut used: usize = 0;
    assert(v@.take(0).len() == 0);
    for i in 0..v.len()
        invariant
            v@ == detail@,
            used == text_bytes(v@.take(i as int)),
            used <= DETAIL_BYTES,
            used == DETAIL_BYTES ==> can_be_cut(detail@),
    {
        let n: usize = bytes_of_char(v[i]);
        proof {
            assert(v@.take(i + 1).drop_last() =~= v@.take(i as int));
            assert(v@.take(i + 1).last() == v@[i as int]);
        }
        if used + n > DETAIL_BYTES {
            proof {
                lemma_text_bytes_grow(detail@, i + 1);
                if used < DETAIL_BYTES {
                    assert forall|k: int| 0 <= k <= detail@.len() implies text_bytes(
                        #[trigger] detail@.take(k),
                    ) != DETAIL_BYTES by {
                        if k <= i {
                            assert(detail@.take(i as int).take(k) =~= detail@.take(k));
                            lemma_text_bytes_grow(detail@.take(i as int), k);
                        } else {
                            assert(detail@.take(k).take(i + 1) =~= detail@.take(i + 1));
                            lemma_text_bytes_grow(detail@.take(k), i + 1);
                        }
                    }
                }
            }
            return used == DETAIL_BYTES;
        }
        used = used + n;
        proof {
            if used == DETAIL_BYTES {
                assert(text_bytes(detail@.take(i + 1)) == DETAIL_BYTES);
            }
        }
    }
    assert(v@.take(v.len() as int) =~= v@);
    true
}

/// Cuts a detail where it is long.
pub fn truncate_probe_detail(detail: &str) -> (r: String)
    requires
        can_be_cut(detail@),
    ensures
        r@ == shortened(detail@),
{
    let v = chars_of(detail);
    if v.len() == 0 {
        return "none".to_owned();
    }
    let mut start = String::new();
    let mut used: usize = 0;
    assert(v@.take(0).len() == 0);
    for i in 0..v.len()
        invariant
            v@ == detail@,
            v.len() > 0,
            start@ =~= v@.take(i as int),
            used == text_bytes(v@.take(i as int)),
            used <= DETAIL_BYTES,
    {
        let n: usize = bytes_of_char(v[i]);
        proof {
            assert(v@.take(i + 1).drop_last() =~= v@.take(i as int));
            assert(v@.take(i + 1).last() == v@[i as int]);
        }
        if used + n > DETAIL_BYTES {
            proof {
                lemma_fitting_start(detail@, DETAIL_BYTES as nat, i as int);
            }
            return start.concat("...");
        }
        start.push(v[i]);
        used = used + n;
    }
    assert(v@.take(v.len() as int) =~= v@);
    start
}

/// The words for a connection that was tried and failed.
pub open spec fn failed_connection(
    exit_code: i32,
    stderr: Seq<char>,
    stdout: Seq<char>,
) -> Seq<char> {
    "connect_failed(exit="@ + signed_decimal(exit_code as int) + ",stderr="@ + shortened(
        on_one_line(trim(stderr)),
    ) + ",stdout="@ + shortened(on_one_line(trim(stdout))) + ")"@
}

/// A result whose output can be shown.
pub open spec fn can_be_shown(result: Result<SandboxExecOutput, SandboxError>) -> bool {
    match result {
        Ok(output) => output.exit_code == 0 || (can_be_cut(on_one_line(trim(output.stderr@)))
            && can_be_cut(on_one_line(trim(output.stdout@)))),
        Err(_) => true,
    }
}

/// Whether the output of a run that tried a connection can be shown.
pub fn network_result_can_be_shown(result: &Result<SandboxExecOutput, SandboxError>) -> (r: bool)
    ensures
        r == can_be_shown(*result),
{
    match result {
        Ok(output) => {
            if output.exit_code == 0 {
                return true;
            }
            let stderr = sanitize_probe_message(trimmed(output.stderr.as_str()).as_str());
            let stdout = sanitize_probe_message(trimmed(output.stdout.as_str()).as_str());
            detail_can_be_cut(stderr.as_str()) && detail_can_be_cut(stdout.as_str())
        },
        Err(_) => true,
    }
}

/// The words for the result of a run that tried a connection.
pub fn render_windows_network_probe_result(
    result: &Result<SandboxExecOutput, SandboxError>,
    debug: &str,
) -> (r: String)
    requires
        can_be_shown(*result),
    ensures
        match *result {
            Ok(output) => r@ == if output.exit_code == 0 {
                "connect_ok"@
            } else {
                failed_connection(output.exit_code, output.stderr@, output.stdout@)
            },
            Err(e) => r@ == windows_error_words(e@, debug@),
        },
{
    match result {
        Ok(output) => {
            if output.exit_code == 0 {
                return "connect_ok".to_owned();
            }
            let stderr = sanitize_probe_message(trimmed(output.stderr.as_str()).as_str());
            let stdout = sanitize_probe_message(trimmed(output.stdout.as_str()).as_str());
            let mut r = "connect_failed(exit=".to_owned();
            r.append(signed_number(output.exit_code as i64).as_str());
            r.append(",stderr=");
            r.append(truncate_probe_detail(stderr.as_str()).as_str());
            r.append(",stdout=");
            r.append(truncate_probe_detail(stdout.as_str()).as_str());
            r.append(")");
            r
        },
        Err(e) => windows_error(e, debug),
    }
}

/// An error that means that Windows has no filtering platform.
pub open spec fn lacks_filtering(e: ErrorView) -> bool {
    e matches ErrorView::Windows(m) && has_text(m, "FwpmEngineOpen0 failed: 50"@)
}

/// Whether a result means that Windows has no filtering platform.
pub fn is_windows_wfp_unavailable(result: &Result<SandboxExecOutput, SandboxError>) -> (r: bool)
    ensures
        r == (*result matches Err(e) && lacks_filtering(e@)),
{
    match result {
        Err(SandboxError::Windows(m)) => contains_text(m.as_str(), "FwpmEngineOpen0 failed: 50"),
        _ => false,
    }
}

/// The sum of some numbers.
pub open spec fn sum_of(samples: Seq<u128>) -> nat
    decreases samples.len(),
{
    if samples.len() == 0 {
        0
    } else {
        sum_of(samples.drop_last()) + samples.last() as nat
    }
}

proof fn lemma_sum_grows(samples: Seq<u128>, n: int)
    requires
        0 <= n <= samples.len(),
    ensures
        sum_of(samples.take(n)) <= sum_of(samples),
    decreases samples.len(),
{
    if n < samples.len() {
        assert(samples.drop_last().take(n) =~= samples.take(n));
        lemma_sum_grows(samples.drop_last(), n);
    } else {
        assert(samples.take(n) =~= samples);
    }
}

/// The average of some times, rounded down.
pub fn average_ms(samples: &Vec<u128>) -> (r: u128)
    requires
        samples.len() > 0,
        sum_of(samples@) <= u128::MAX,
    ensures
        r == sum_of(samples@) / samples@.len(),
{
    let mut total: u128 = 0;
    for i in 0..samples.len()
        invariant
            total == sum_of(samples@.take(i as int)),
            sum_of(samples@) <= u128::MAX,
    {
        proof {
            assert(samples@.take(i + 1).drop_last() =~= samples@.take(i as int));
            assert(samples@.take(i + 1).last() == samples@[i as int]);
            lemma_sum_grows(samples@, i + 1);
        }
        total = total + samples[i];
    }
    assert(samples@.take(samples.len() as int) =~= samples@);
    total / (samples.len() as u128)
}

/// The times as a list.
pub fn join_samples(samples: &Vec<u128>) -> (r: String)
    ensures
        r@ == join(Seq::new(samples@.len(), |i: int| decimal(samples@[i] as nat)), ","@),
{
    let mut parts: Vec<String> = Vec::new();
    for i in 0..samples.len()
        invariant
            parts.len() == i,
            forall|j: int| 0 <= j < i ==> (#[trigger] parts@[j])@ == decimal(samples@[j] as nat),
    {
        let part = number(samples[i]);
        parts.push(part);
    }
    assert(texts(parts@) =~= Seq::new(samples@.len(), |i: int| decimal(samples@[i] as nat)));
    join_texts(&parts, ",")
}

/// The shortest and the longest time; zero where there is none.
pub fn extreme_samples(samples: &Vec<u128>) -> (r: (u128, u128))
    ensures
        samples.len() == 0 ==> r.0 == 0 && r.1 == 0,
        samples.len() > 0 ==> samples@.contains(r.0) && samples@.contains(r.1),
        forall|i: int| 0 <= i < samples@.len() ==> r.0 <= #[trigger] samples@[i] <= r.1,
{
    if samples.len() == 0 {
        return (0, 0);
    }
    let mut low: u128 = samples[0];
    let mut high: u128 = samples[0];
    assert(samples@[0] == low);
    for i in 0..samples.len()
        invariant
            samples.len() > 0,
            samples@.contains(low),
            samples@.contains(high),
            forall|j: int| 0 <= j < i ==> low <= #[trigger] samples@[j] <= high,
            low <= high,
    {
        let s: u128 = samples[i];
        assert(samples@[i as int] == s);
        if s < low {
            low = s;
        }
        if s > high {
            high = s;
        }
    }
    (low, high)
}

/// The lines of a timed case: its samples, their average, the shortest and the longest.
pub fn timing_lines(name: &str, samples: &Vec<u128>) -> (r: Vec<String>)
    requires
        samples.len() > 0,
        sum_of(samples@) <= u128::MAX,
    ensures
        exists|low: u128, high: u128|
            samples@.contains(low) && samples@.contains(high) && (forall|i: int|
                0 <= i < samples@.len() ==> low <= #[trigger] samples@[i] <= high) && texts(r@)
                == #[trigger] timing_texts(name@, samples@, low, high),
{
    let (low, high) = extreme_samples(samples);
    let mut r: Vec<String> = Vec::new();
    r.push(timing_line(name, ".samples_ms=", join_samples(samples).as_str()));
    r.push(timing_line(name, ".avg_ms=", number(average_ms(samples)).as_str()));
    r.push(timing_line(name, ".min_ms=", number(low).as_str()));
    r.push(timing_line(name, ".max_ms=", number(high).as_str()));
    assert(texts(r@) =~= timing_texts(name@, samples@, low, high));
    r
}

/// The lines of a timed case with the given extremes.
pub open spec fn timing_texts(
    name: Seq<char>,
    samples: Seq<u128>,
    low: u128,
    high: u128,
) -> Seq<Seq<char>> {
    seq![
        "windows.timing."@ + name + ".samples_ms="@ + join(
            Seq::new(samples.len(), |i: int| decimal(samples[i] as nat)),
            ","@,
        ),
        "windows.timing."@ + name + ".avg_ms="@ + decimal(
            (sum_of(samples) / samples.len()) as nat,
        ),
        "windows.timing."@ + name + ".min_ms="@ + decimal(low as nat),
        "windows.timing."@ + name + ".max_ms="@ + decimal(high as nat),
    ]
}

fn timing_line(name: &str, label: &str, value: &str) -> (r: String)
    ensures
        r@ == "windows.timing."@ + name@ + label@ + value@,
{
    let mut line = "windows.timing.".to_owned();
    line.append(name);
    line.append(label);
    line.append(value);
    line
}

/// What the question whether the host process has the rights of an administrator was answered:
/// yes, no, or something else, which is an error.
pub fn parse_elevation_answer(stdout: &str) -> (r: Result<bool, String>)
    ensures
        ({
            let answer = trim(stdout@);
            match r {
                Ok(yes) => if yes {
                    answer == "True"@
                } else {
                    answer == "False"@ && answer != "True"@
                },
                Err(e) => answer != "True"@ && answer != "False"@ && e@
                    == "unexpected powershell elevation probe output: "@ + answer,
            }
        }),
{
    let answer = trimmed(stdout);
    if same_text(answer.as_str(), "True") {
        Ok(true)
    } else if same_text(answer.as_str(), "False") {
        Ok(false)
    } else {
        Err("unexpected powershell elevation probe output: ".to_owned().concat(answer.as_str()))
    }
}

/// The name of a diagnosis of a failed connection.
pub open spec fn diagnosis_name(code: i32) -> Seq<char> {
    if code == 0 {
        "none"@
    } else if code == 1 {
        "private_network"@
    } else if code == 2 {
        "internet_client"@
    } else if code == 3 {
        "internet_client_server"@
    } else {
        "unknown"@
    }
}

/// The name of a diagnosis of a failed connection.
pub fn diagnosis_reason(code: i32) -> (r: &'static str)
    ensures
        r@ == diagnosis_name(code),
{
    if code == 0 {
        "none"
    } else if code == 1 {
        "private_network"
    } else if code == 2 {
        "internet_client"
    } else if code == 3 {
        "internet_client_server"
    } else {
        "unknown"
    }
}

/// An unsigned number that a text writes: an optional plus sign and at least one digit, at most
/// `max`.
pub open spec fn unsigned_number(s: Seq<char>, max: int) -> Option<int> {
    let digits = after_sign(s);
    if digits.len() == 0 || s[0] == '-' || !all_digits(digits) || digits_value(digits) > max {
        None
    } else {
        Some(digits_value(digits))
    }
}

fn parse_unsigned(text: &str, max: u64) -> (r: Option<u64>)
    ensures
        match r {
            Some(n) => unsigned_number(text@, max as int) == Some(n as int),
            None => unsigned_number(text@, max as int) is None,
        },
{
    let s = chars_of(text);
    let signed = s.len() > 0 && (s[0] == '+' || s[0] == '-');
    let from: usize = if signed {
        1
    } else {
        0
    };
    let ghost digits = after_sign(text@);
    let len: usize = s.len();
    if len == from || s[0] == '-' {
        return None;
    }
    for i in from..len
        invariant
            s@ == text@,
            len == s.len(),
            digits == after_sign(text@),
            from + digits.len() == len,
            forall|k: int| 0 <= k < digits.len() ==> #[trigger] digits[k] == s@[k + from],
            forall|k: int| 0 <= k < i - from ==> is_digit(#[trigger] digits[k]),
    {
        let c = s[i];
        assert(digits[i - from] == c);
        if !('0' <= c && c <= '9') {
            assert(!is_digit(digits[i - from]));
            return None;
        }
    }
    assert(all_digits(digits));
    let mut value: u128 = 0;
    assert(digits.take(0).len() == 0);
    for i in from..len
        invariant
            s@ == text@,
            len == s.len(),
            digits == after_sign(text@),
            from + digits.len() == len,
            all_digits(digits),
            forall|k: int| 0 <= k < digits.len() ==> #[trigger] digits[k] == s@[k + from],
            value == digits_value(digits.take(i - from)),
            value <= max,
    {
        let c = s[i];
        proof {
            assert(digits[i - from] == c);
            assert(is_digit(digits[i - from]));
            assert(digits.take(i - from + 1).drop_last() =~= digits.take(i - from));
            assert(digits.take(i - from + 1).last() == c);
            crate::linux::process::lemma_digits_grow(digits, i - from + 1);
        }
        value = value * 10 + (c as u32 - 48) as u128;
        if value > max as u128 {
            return None;
        }
    }
    assert(digits.take(digits.len() as int) =~= digits);
    Some(value as u64)
}

/// What a probe program is asked to do.
#[derive(Debug, PartialEq, Eq)]
pub enum ProbeMode {
    /// To probe the sandbox.
    Matrix,
    /// To try a connection.
    Connect { host: String, port: u16, timeout_ms: u64 },
    /// To try a connection, with a port or a time that is no number.
    Malformed,
}

/// What a probe program is asked to do by its arguments, the first of which is its own name.
pub fn probe_mode(args: &Vec<String>) -> (r: ProbeMode)
    ensures
        ({
            let a = texts(args@);
            let asked = a.len() == 5 && a[1] == NETWORK_PROBE_FLAG@;
            match r {
                ProbeMode::Matrix => !asked,
                ProbeMode::Connect { host, port, timeout_ms } => asked && host@ == a[2]
                    && unsigned_number(a[3], 65535) == Some(port as int) && unsigned_number(
                    a[4],
                    u64::MAX as int,
                ) == Some(timeout_ms as int),
                ProbeMode::Malformed => asked && (unsigned_number(a[3], 65535) is None
                    || unsigned_number(a[4], u64::MAX as int) is None),
            }
        }),
{
    if args.len() != 5 || !same_text(args[1].as_str(), NETWORK_PROBE_FLAG) {
        assert(args.len() == 5 ==> texts(args@)[1] == args@[1]@);
        return ProbeMode::Matrix;
    }
    proof {
        let a = texts(args@);
        assert(a[1] == args@[1]@ && a[2] == args@[2]@ && a[3] == args@[3]@ && a[4] == args@[4]@);
    }
    let port = parse_unsigned(args[3].as_str(), 65535);
    let timeout = parse_unsigned(args[4].as_str(), u64::MAX);
    match (port, timeout) {
        (Some(p), Some(t)) => ProbeMode::Connect {
            host: args[2].clone(),
            port: p as u16,
            timeout_ms: t,
        },
        _ => ProbeMode::Malformed,
    }
}

/// The first line that holds more than white space, without the white space at its ends.
pub open spec fn first_written_line(pieces: Seq<Seq<char>>) -> Option<Seq<char>>
    decreases pieces.len(),
{
    if pieces.len() == 0 {
        None
    } else {
        match first_written_line(pieces.drop_last()) {
            Some(line) => Some(line),
            None => if is_blank(pieces.last()) {
                None
            } else {
                Some(trim(pieces.last()))
            },
        }
    }
}

/// The first line of an answer that holds more than white space.
pub fn first_answer_line(stdout: &str) -> (r: Option<String>)
    ensures
        match r {
            Some(line) => first_written_line(crate::text::split(stdout@, '\n')) == Some(line@),
            None => first_written_line(crate::text::split(stdout@, '\n')) is None,
        },
{
    let pieces = split_text(stdout, '\n');
    let ghost all = texts(pieces@);
    let mut found: Option<String> = None;
    for i in 0..pieces.len()
        invariant
            all == texts(pieces@),
            match found {
                Some(line) => first_written_line(all.take(i as int)) == Some(line@),
                None => first_written_line(all.take(i as int)) is None,
            },
    {
        proof {
            assert(all.take(i + 1).drop_last() =~= all.take(i as int));
            assert(all.take(i + 1).last() == pieces@[i as int]@);
        }
        if found.is_none() && !blank(pieces[i].as_str()) {
            found = Some(trimmed(pieces[i].as_str()));
        }
    }
    assert(all.take(all.len() as int) =~= all);
    found
}

/// A message on one line holds no line break, and is otherwise as it was.
pub proof fn one_line_holds_no_break(s: Seq<char>, i: int)
    ensures
        on_one_line(s).len() == s.len(),
        0 <= i < s.len() ==> on_one_line(s)[i] != '\n' && on_one_line(s)[i] != '\r',
        0 <= i < s.len() && s[i] != '\n' && s[i] != '\r' ==> on_one_line(s)[i] == s[i],
        0 <= i < s.len() && (s[i] == '\n' || s[i] == '\r') ==> on_one_line(s)[i] == ' ',
{
}

proof fn lemma_more_text_takes_more_bytes(s: Seq<char>, n: int)
    requires
        0 <= n <= s.len(),
    ensures
        text_bytes(s.take(n)) <= text_bytes(s),
        n < s.len() ==> text_bytes(s.take(n)) < text_bytes(s),
    decreases s.len(),
{
    if n < s.len() {
        let f = s.drop_last();
        lemma_more_text_takes_more_bytes(f, n);
        assert(f.take(n) =~= s.take(n));
    } else {
        assert(s.take(n) =~= s);
    }
}

proof fn lemma_longest_start(s: Seq<char>, limit: nat)
    ensures
        fitting_start(s, limit).len() <= s.len(),
        fitting_start(s, limit) == s.take(fitting_start(s, limit).len() as int),
        text_bytes(fitting_start(s, limit)) <= limit,
        forall|n: int|
            0 <= n <= s.len() && text_bytes(#[trigger] s.take(n)) <= limit ==> n <= fitting_start(
                s,
                limit,
            ).len(),
    decreases s.len(),
{
    if text_bytes(s) <= limit {
        assert(s.take(s.len() as int) =~= s);
    } else {
        let f = s.drop_last();
        lemma_longest_start(f, limit);
        let r = fitting_start(f, limit);
        assert(f.take(r.len() as int) =~= s.take(r.len() as int));
        assert forall|n: int|
            0 <= n <= s.len() && text_bytes(#[trigger] s.take(n)) <= limit implies n <= r.len() by {
            if n == s.len() {
                assert(s.take(n) =~= s);
            } else {
                assert(f.take(n) =~= s.take(n));
            }
        }
    }
}

/// A detail of at most 160 bytes is shown whole, and none at all by a word. Of a longer one as much
/// of its start is shown as fits, with three dots behind it.
pub proof fn details_are_shown_up_to_a_limit(detail: Seq<char>, n: int)
    requires
        0 <= n <= detail.len(),
    ensures
        detail.len() == 0 ==> shortened(detail) == "none"@,
        0 < text_bytes(detail) <= 160 ==> shortened(detail) == detail,
        text_bytes(detail) > 160 && text_bytes(detail.take(n)) == 160 ==> shortened(detail)
            == detail.take(n) + "..."@,
{
    lemma_more_text_takes_more_bytes(detail, 0);
    if text_bytes(detail) > 160 && text_bytes(detail.take(n)) == 160 {
        lemma_longest_start(detail, 160);
        let r = fitting_start(detail, 160);
        let m = r.len() as int;
        if n < m {
            lemma_more_text_takes_more_bytes(detail.take(m), n);
            assert(detail.take(m).take(n) =~= detail.take(n));
        }
    }
}

/// A text takes as many bytes as its characters do, each one to four.
pub proof fn texts_take_the_bytes_of_their_characters(a: Seq<char>, b: Seq<char>, c: char)
    ensures
        text_bytes(a + b) == text_bytes(a) + text_bytes(b),
        text_bytes(seq![c]) == char_bytes(c),
        1 <= char_bytes(c) <= 4,
        (c as u32) < 128 <==> char_bytes(c) == 1,
    decreases b.len(),
{
    let one = seq![c];
    assert(one.drop_last() =~= Seq::empty());
    assert(text_bytes(one.drop_last()) == 0);
    if b.len() == 0 {
        assert(a + b =~= a);
    } else {
        let f = b.drop_last();
        texts_take_the_bytes_of_their_characters(a, f, c);
        assert((a + b).drop_last() =~= a + f);
        assert((a + b).last() == b.last());
    }
}

/// Numbers are added up one by one.
pub proof fn sums_add_up(a: Seq<u128>, b: Seq<u128>, x: u128)
    ensures
        sum_of(a + b) == sum_of(a) + sum_of(b),
        sum_of(seq![x]) == x,
    decreases b.len(),
{
    let one = seq![x];
    assert(one.drop_last() =~= Seq::empty());
    assert(sum_of(one.drop_last()) == 0);
    if b.len() == 0 {
        assert(a + b =~= a);
    } else {
        let f = b.drop_last();
        sums_add_up(a, f, x);
        assert((a + b).drop_last() =~= a + f);
        assert((a + b).last() == b.last());
    }
}

/// The first line of an answer is the first that is not blank, trimmed.
pub proof fn the_first_written_line_counts(
    blank_lines: Seq<Seq<char>>,
    line: Seq<char>,
    more: Seq<Seq<char>>,
)
    requires
        forall|i: int| 0 <= i < blank_lines.len() ==> is_blank(#[trigger] blank_lines[i]),
        !is_blank(line),
    ensures
        first_written_line(blank_lines) is None,
        first_written_line(blank_lines.push(line) + more) == Some(trim(line)),
    decreases blank_lines.len() + more.len(),
{
    let s = blank_lines.push(line) + more;
    if blank_lines.len() > 0 {
        let f = blank_lines.drop_last();
        assert forall|i: int| 0 <= i < f.len() implies is_blank(#[trigger] f[i]) by {
            assert(f[i] == blank_lines[i]);
        }
        the_first_written_line_counts(f, line, Seq::empty());
        assert(is_blank(blank_lines[blank_lines.len() - 1]));
    }
    if more.len() == 0 {
        assert(s.drop_last() =~= blank_lines);
        assert(s.last() == line);
    } else {
        the_first_written_line_counts(blank_lines, line, more.drop_last());
        assert(s.drop_last() =~= blank_lines.push(line) + more.drop_last());
    }
}

/// The words for an error tell what sort it is of, and hold its message on one line.
pub proof fn errors_are_told_by_their_sort(message: Seq<char>, debug: Seq<char>)
    ensures
        ({
            let shown = "("@ + on_one_line(message) + ")"@;
            &&& unix_error_words(ErrorView::InvalidRequest(message), debug) =~= "invalid_request"@
                + shown
            &&& unix_error_words(ErrorView::Denied(message), debug) =~= "denied"@ + shown
            &&& unix_error_words(ErrorView::Unavailable(message), debug) =~= "unavailable"@ + shown
            &&& windows_error_words(ErrorView::Windows(message), debug) =~= "windows_error"@ + shown
            &&& windows_error_words(ErrorView::Denied(message), debug) =~= "denied"@ + shown
            &&& windows_error_words(ErrorView::Unavailable(message), debug) =~= "unavailable"@
                + shown
            &&& windows_error_words(ErrorView::InvalidRequest(message), debug)
                =~= "invalid_request"@ + shown
        }),
{
}

/// A host lacks the filtering platform exactly where opening its engine is said to have failed as
/// not supported, wherever in the message that stands.
pub proof fn missing_filtering_is_recognised(before: Seq<char>, after: Seq<char>, e: ErrorView)
    ensures
        lacks_filtering(
            ErrorView::Windows(before + "FwpmEngineOpen0 failed: 50"@ + after),
        ),
        !(e is Windows) ==> !lacks_filtering(e),
{
    let needle = "FwpmEngineOpen0 failed: 50"@;
    let m = before + needle + after;
    assert(m.subrange(before.len() as int, (before.len() + needle.len()) as int) =~= needle);
    assert(crate::text::occurs_at(m, needle, before.len() as int));
}

/// The numbers of a diagnosis have different words.
pub proof fn diagnoses_have_words(code: i32)
    ensures
        diagnosis_name(0) == "none"@,
        diagnosis_name(1) == "private_network"@,
        diagnosis_name(2) == "internet_client"@,
        diagnosis_name(3) == "internet_client_server"@,
        code < 0 || code > 3 ==> diagnosis_name(code) == "unknown"@,
{
}

proof fn lemma_decimal_digits(n: nat)
    ensures
        decimal(n).len() > 0,
        all_digits(decimal(n)),
        digits_value(decimal(n)) == n,
        decimal(n)[0] != '-' && decimal(n)[0] != '+',
    decreases n,
{
    let d = decimal(n);
    if n < 10 {
        assert(d.drop_last() =~= Seq::empty());
        assert(digits_value(d.drop_last()) == 0);
    } else {
        lemma_decimal_digits(n / 10);
        assert(d.drop_last() =~= decimal(n / 10));
        assert(d[0] == decimal(n / 10)[0]);
        assert forall|i: int| 0 <= i < d.len() implies crate::linux::process::is_digit(
            #[trigger] d[i],
        ) by {
            if i < d.len() - 1 {
                assert(d[i] == decimal(n / 10)[i]);
            }
        }
    }
}

/// A number in digits is read as that number, as far as it fits; one with a minus sign is not read.
pub proof fn unsigned_numbers_are_read_back(n: nat, max: int, rest: Seq<char>)
    ensures
        n <= max ==> unsigned_number(decimal(n), max) == Some(n as int),
        n > max ==> unsigned_number(decimal(n), max) is None,
        unsigned_number(seq!['-'] + rest, max) is None,
        unsigned_number(Seq::empty(), max) is None,
{
    lemma_decimal_digits(n);
    assert((seq!['-'] + rest)[0] == '-');
}

/// What is shown of a connection that failed: its exit code and what was written, trimmed and on one
/// line.
pub proof fn failed_connections_are_shown(exit_code: i32, stderr: Seq<char>, stdout: Seq<char>)
    ensures
        failed_connection(exit_code, stderr, stdout) == "connect_failed(exit="@ + signed_decimal(
            exit_code as int,
        ) + ",stderr="@ + shortened(on_one_line(trim(stderr))) + ",stdout="@ + shortened(
            on_one_line(trim(stdout)),
        ) + ")"@,
{
}

/// The times of a case are shown with their average, the shortest and the longest.
pub proof fn timings_are_shown(name: Seq<char>, samples: Seq<u128>, low: u128, high: u128)
    requires
        samples.len() > 0,
    ensures
        ({
            let t = timing_texts(name, samples, low, high);
            let start = "windows.timing."@ + name;
            &&& t.len() == 4
            &&& t[1] == start + ".avg_ms="@ + decimal((sum_of(samples) / samples.len()) as nat)
            &&& t[2] == start + ".min_ms="@ + decimal(low as nat)
            &&& t[3] == start + ".max_ms="@ + decimal(high as nat)
            &&& samples.len() == 1 ==> t[0] == start + ".samples_ms="@ + decimal(samples[0] as nat)
        }),
{
}

/// The command that is made to probe a connection is read back as that probe.
pub proof fn probes_are_read_back(
    program: &str,
    host: &str,
    port: u16,
    timeout_ms: u64,
    args: Vec<String>,
    r: ProbeMode,
)
    requires
        call_ensures(
            crate::probe::commands::network_probe_command,
            (program, host, port, timeout_ms),
            args,
        ),
        call_ensures(probe_mode, (&args,), r),
    ensures
        r matches ProbeMode::Connect { host: h, port: p, timeout_ms: t } && h@ == host@ && p == port
            && t == timeout_ms,
{
    unsigned_numbers_are_read_back(port as nat, 65535, Seq::empty());
    unsigned_numbers_are_read_back(timeout_ms as nat, u64::MAX as int, Seq::empty());
}

proof fn lemma_ascii_bytes_are_characters(s: Seq<char>)
    requires
        forall|i: int| 0 <= i < s.len() ==> (#[trigger] s[i] as u32) < 128,
    ensures
        text_bytes(s) == s.len(),
    decreases s.len(),
{
    if s.len() > 0 {
        let f = s.drop_last();
        assert forall|i: int| 0 <= i < f.len() implies (#[trigger] f[i] as u32) < 128 by {
            assert(f[i] == s[i]);
        }
        lemma_ascii_bytes_are_characters(f);
        assert((s[s.len() - 1] as u32) < 128);
    }
}

/// A detail of plain ASCII can always be shown: whole up to 160 characters, and else by its first
/// 160 and three dots.
pub proof fn ascii_details_can_be_cut(s: Seq<char>)
    requires
        forall|i: int| 0 <= i < s.len() ==> (#[trigger] s[i] as u32) < 128,
    ensures
        can_be_cut(s),
        0 < s.len() <= 160 ==> shortened(s) == s,
        s.len() > 160 ==> shortened(s) == s.take(160) + "..."@,
{
    lemma_ascii_bytes_are_characters(s);
    if s.len() > 160 {
        let t = s.take(160);
        assert forall|i: int| 0 <= i < t.len() implies (#[trigger] t[i] as u32) < 128 by {
            assert(t[i] == s[i]);
        }
        lemma_ascii_bytes_are_characters(t);
        details_are_shown_up_to_a_limit(s, 160);
    } else {
        details_are_shown_up_to_a_limit(s, 0);
    }
}

} // verus!
