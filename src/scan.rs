//! The scan over log files: preamble detection per file, version detection
//! and request extraction per line.
use vstd::prelude::*;
use crate::error::ParseError;
use crate::http::{request_of_payload, HttpRequest};
use crate::line::{line_parts, LogLine};
use crate::message::{message_parts, MessageFormat};
use vstd::string::StringExecFns;
use crate::output::{initial_output, offer_version, record_request, Output, OutputView};
use crate::text::{
    chars_of, contains, contains_exec, find_str, is_first_occurrence, lemma_first_occurrence_unique, starts_with,
    starts_with_exec, substring, trim, trim_bounds,
};

verus! {

/// Where the scan of one file stands.
#[derive(Debug, Clone, Copy, PartialEq, Eq, Structural)]
pub enum ScanState {
    /// The startup banner has not been seen yet: bracketed lines are skipped.
    AwaitingPreamble,
    /// The banner has been seen: bracketed lines are read.
    InLog,
}

/// The version that a payload announces: what follows its first `Branch:`,
/// trimmed.
pub open spec fn version_in(data: Seq<char>) -> Option<Seq<char>> {
    if contains(data, "Branch:"@) {
        let i = choose|i: int| is_first_occurrence(data, "Branch:"@, i);
        Some(trim(data.subrange(i + "Branch:"@.len(), data.len() as int)))
    } else {
        None
    }
}

/// `o` after a message from `origin` with payload `data` has been offered
/// for version detection.
pub open spec fn detect_version(o: OutputView, origin: Seq<char>, data: Seq<char>) -> OutputView {
    if o.version == crate::output::unknown_version() && origin == "LogShooter"@ && contains(
        data,
        "Display: Branch:"@,
    ) {
        match version_in(data) {
            Some(v) => offer_version(o, v),
            None => o,
        }
    } else {
        o
    }
}

/// Whether a payload stands for an HTTP request to extract.
pub open spec fn is_request_payload(data: Seq<char>) -> bool {
    contains(data, "Platform HTTP"@) && !starts_with(data, "Warning"@)
}

/// The effect of one line: the next state and result set, or the failure.
pub open spec fn step(st: ScanState, o: OutputView, line: Seq<char>) -> Result<
    (ScanState, OutputView),
    ParseError,
> {
    if !starts_with(line, "["@) {
        if starts_with(line, "LogInit"@) {
            Ok((ScanState::InLog, o))
        } else {
            Ok((st, o))
        }
    } else if st == ScanState::AwaitingPreamble {
        Ok((st, o))
    } else {
        match line_parts(line) {
            None => Err(ParseError::MalformedLine),
            Some(parts) => match message_parts(parts.2) {
                None => Err(ParseError::MalformedMessage),
                Some(m) => {
                    let o1 = detect_version(o, m.0, m.1);
                    if is_request_payload(m.1) {
                        match request_of_payload(m.1) {
                            None => Err(ParseError::UnrecognizedHttpFormat),
                            Some(r) => Ok((st, record_request(o1, r))),
                        }
                    } else {
                        Ok((st, o1))
                    }
                },
            },
        }
    }
}

/// The effect of a sequence of lines, read in order from state `st`.
pub open spec fn scan_lines(st: ScanState, o: OutputView, lines: Seq<Seq<char>>) -> Result<
    (ScanState, OutputView),
    ParseError,
>
    decreases lines.len(),
{
    if lines.len() == 0 {
        Ok((st, o))
    } else {
        match scan_lines(st, o, lines.drop_last()) {
            Ok(p) => step(p.0, p.1, lines.last()),
            Err(e) => Err(e),
        }
    }
}

/// The effect of one file: its lines read from the start of a file.
pub open spec fn scan_file_model(o: OutputView, lines: Seq<Seq<char>>) -> Result<OutputView, ParseError> {
    match scan_lines(ScanState::AwaitingPreamble, o, lines) {
        Ok(p) => Ok(p.1),
        Err(e) => Err(e),
    }
}

/// The effect of a sequence of files, read in order.
pub open spec fn scan_files(o: OutputView, files: Seq<Seq<Seq<char>>>) -> Result<OutputView, ParseError>
    decreases files.len(),
{
    if files.len() == 0 {
        Ok(o)
    } else {
        match scan_files(o, files.drop_last()) {
            Ok(o1) => scan_file_model(o1, files.last()),
            Err(e) => Err(e),
        }
    }
}

/// The result of a whole run over `files`.
pub open spec fn run_model(files: Seq<Seq<Seq<char>>>) -> Result<OutputView, ParseError> {
    scan_files(initial_output(), files)
}

/// A payload that starts with `Warning` gives no record and no failure, even
/// where it mentions `Platform HTTP`.
pub proof fn lemma_warning_payload_skipped(st: ScanState, o: OutputView, line: Seq<char>)
    requires
        starts_with(line, "["@),
        line_parts(line) matches Some(parts) && message_parts(parts.2) matches Some(m)
            && starts_with(m.1, "Warning"@),
    ensures
        step(st, o, line) matches Ok(p) && p.0 == st && p.1.endpoints == o.endpoints,
{
}

/// A line never changes a version that is already known.
pub proof fn lemma_step_keeps_version(st: ScanState, o: OutputView, line: Seq<char>)
    requires
        o.version != crate::output::unknown_version(),
    ensures
        step(st, o, line) matches Ok(p) ==> p.1.version == o.version,
{
}

/// Lines never change a version that is already known.
proof fn lemma_lines_keep_version(st: ScanState, o: OutputView, lines: Seq<Seq<char>>)
    requires
        o.version != crate::output::unknown_version(),
    ensures
        scan_lines(st, o, lines) matches Ok(p) ==> p.1.version == o.version,
    decreases lines.len(),
{
    if lines.len() > 0 {
        lemma_lines_keep_version(st, o, lines.drop_last());
        if let Ok(p) = scan_lines(st, o, lines.drop_last()) {
            lemma_step_keeps_version(p.0, p.1, lines.last());
        }
    }
}

/// Once a version is known, no later line of any file changes it: the first
/// version detected in a run is the one it reports.
pub proof fn lemma_version_is_kept(o: OutputView, files: Seq<Seq<Seq<char>>>)
    requires
        o.version != crate::output::unknown_version(),
    ensures
        scan_files(o, files) matches Ok(o2) ==> o2.version == o.version,
    decreases files.len(),
{
    if files.len() > 0 {
        lemma_version_is_kept(o, files.drop_last());
        if let Ok(o1) = scan_files(o, files.drop_last()) {
            lemma_lines_keep_version(ScanState::AwaitingPreamble, o1, files.last());
        }
    }
}

/// A file none of whose lines starts with `LogInit` leaves the result set as
/// it was.
proof fn lemma_file_without_banner(o: OutputView, lines: Seq<Seq<char>>)
    requires
        forall|j: int| 0 <= j < lines.len() ==> !starts_with(#[trigger] lines[j], "LogInit"@),
    ensures
        scan_lines(ScanState::AwaitingPreamble, o, lines) == Ok::<(ScanState, OutputView), ParseError>(
            (ScanState::AwaitingPreamble, o),
        ),
    decreases lines.len(),
{
    if lines.len() > 0 {
        lemma_file_without_banner(o, lines.drop_last());
        assert(!starts_with(lines[lines.len() - 1], "LogInit"@));
    }
}

/// Files that never show the startup banner yield no records and leave the
/// version unknown.
pub proof fn lemma_no_banner_no_output(files: Seq<Seq<Seq<char>>>)
    requires
        forall|i: int, j: int|
            0 <= i < files.len() && 0 <= j < files[i].len() ==> !starts_with(
                #[trigger] files[i][j],
                "LogInit"@,
            ),
    ensures
        run_model(files) == Ok::<OutputView, ParseError>(initial_output()),
    decreases files.len(),
{
    if files.len() > 0 {
        assert forall|i: int, j: int|
            0 <= i < files.drop_last().len() && 0 <= j < files.drop_last()[i].len() implies !starts_with(
                #[trigger] files.drop_last()[i][j],
                "LogInit"@,
            ) by {
            assert(files.drop_last()[i] == files[i]);
        }
        lemma_no_banner_no_output(files.drop_last());
        let last = files.last();
        assert forall|j: int| 0 <= j < last.len() implies !starts_with(#[trigger] last[j], "LogInit"@) by {
            assert(files[files.len() - 1][j] == last[j]);
        }
        lemma_file_without_banner(initial_output(), last);
    }
}

/// A failure on a line ends the scan of its file with that failure.
proof fn lemma_failure_persists(o: OutputView, ls: Seq<Seq<char>>, n: int, e: ParseError)
    requires
        0 <= n <= ls.len(),
        scan_lines(ScanState::AwaitingPreamble, o, ls.take(n)) == Err::<(ScanState, OutputView), ParseError>(e),
    ensures
        scan_lines(ScanState::AwaitingPreamble, o, ls) == Err::<(ScanState, OutputView), ParseError>(e),
    decreases ls.len() - n,
{
    if n < ls.len() {
        assert(ls.take(n + 1).drop_last() =~= ls.take(n));
        lemma_failure_persists(o, ls, n + 1, e);
    } else {
        assert(ls.take(n) =~= ls);
    }
}

/// Offers the message from `origin` with payload `data` for version detection.
fn detect_version_exec(output: &mut Output, origin: &String, data: &String)
    requires
        old(output).wf(),
    ensures
        final(output).wf(),
        final(output)@ == detect_version(old(output)@, origin@, data@),
{
    let unknown = String::from_str("unknown");
    let shooter = String::from_str("LogShooter");
    if output.version == unknown && *origin == shooter {
        let dcs = chars_of(data.as_str());
        if contains_exec(dcs.as_slice(), chars_of("Display: Branch:").as_slice()) {
            let bcs = chars_of("Branch:");
            match find_str(dcs.as_slice(), bcs.as_slice()) {
                Some(i) => {
                    let n = dcs.len();
                    let m = bcs.len();
                    proof {
                        lemma_first_occurrence_unique(data@, "Branch:"@, i as int);
                        assert(i + m <= n);
                    }
                    let (a, b) = trim_bounds(dcs.as_slice(), i + m, n);
                    output.set_version(substring(data.as_str(), a, b));
                },
                None => {},
            }
        }
    }
}

/// Reads one line in state `state`: returns the next state, and records in
/// `output` what the line announces.
pub fn scan_line(state: ScanState, output: &mut Output, line: &String) -> (r: Result<ScanState, ParseError>)
    requires
        old(output).wf(),
    ensures
        final(output).wf(),
        match step(state, old(output)@, line@) {
            Ok(p) => r == Ok::<ScanState, ParseError>(p.0) && final(output)@ == p.1,
            Err(e) => r == Err::<ScanState, ParseError>(e),
        },
{
    let cs = chars_of(line.as_str());
    if !starts_with_exec(cs.as_slice(), chars_of("[").as_slice()) {
        if starts_with_exec(cs.as_slice(), chars_of("LogInit").as_slice()) {
            return Ok(ScanState::InLog);
        }
        return Ok(state);
    }
    if state == ScanState::AwaitingPreamble {
        return Ok(state);
    }
    let log = LogLine::new(line.clone())?;
    let message = MessageFormat::new(log.message)?;
    detect_version_exec(output, &message.origin, &message.data);
    let dcs = chars_of(message.data.as_str());
    if contains_exec(dcs.as_slice(), chars_of("Platform HTTP").as_slice()) && !starts_with_exec(
        dcs.as_slice(),
        chars_of("Warning").as_slice(),
    ) {
        let request = HttpRequest::new(message.data)?;
        output.insert(request);
    }
    Ok(state)
}

/// Reads the lines of one file, from the start of the file, into `output`.
pub fn scan_file(output: &mut Output, lines: &Vec<String>) -> (r: Result<(), ParseError>)
    requires
        old(output).wf(),
    ensures
        final(output).wf(),
        match scan_file_model(old(output)@, lines.deep_view()) {
            Ok(o) => r is Ok && final(output)@ == o,
            Err(e) => r == Err::<(), ParseError>(e),
        },
{
    let ghost ls = lines.deep_view();
    let mut state = ScanState::AwaitingPreamble;
    let mut i: usize = 0;
    while i < lines.len()
        invariant
            i <= lines@.len(),
            ls == lines.deep_view(),
            output.wf(),
            scan_lines(ScanState::AwaitingPreamble, old(output)@, ls.take(i as int)) == Ok::<
                (ScanState, OutputView),
                ParseError,
            >((state, output@)),
        decreases lines@.len() - i,
    {
        proof {
            assert(ls.take(i + 1).drop_last() =~= ls.take(i as int));
            assert(ls.take(i + 1).last() == lines@[i as int]@);
        }
        match scan_line(state, output, &lines[i]) {
            Ok(s) => {
                state = s;
            },
            Err(e) => {
                proof {
                    lemma_failure_persists(old(output)@, ls, i + 1, e);
                }
                return Err(e);
            },
        }
        i = i + 1;
    }
    proof {
        assert(ls.take(i as int) =~= ls);
    }
    Ok(())
}

/// Reads `files` in order into a new result set: the result of the whole run.
pub fn run(files: &Vec<Vec<String>>) -> (r: Result<Output, ParseError>)
    ensures
        match run_model(files.deep_view()) {
            Ok(o) => r matches Ok(out) && out@ == o && out.wf(),
            Err(e) => r matches Err(x) && x == e,
        },
{
    let ghost fs = files.deep_view();
    let mut output = Output::new();
    let mut i: usize = 0;
    while i < files.len()
        invariant
            i <= files@.len(),
            fs == files.deep_view(),
            output.wf(),
            scan_files(initial_output(), fs.take(i as int)) == Ok::<OutputView, ParseError>(output@),
        decreases files@.len() - i,
    {
        proof {
            assert(fs.take(i + 1).drop_last() =~= fs.take(i as int));
            assert(fs.take(i + 1).last() == files@[i as int].deep_view());
        }
        match scan_file(&mut output, &files[i]) {
            Ok(()) => {},
            Err(e) => {
                proof {
                    lemma_run_failure_persists(fs, i + 1, e);
                }
                return Err(e);
            },
        }
        i = i + 1;
    }
    proof {
        assert(fs.take(i as int) =~= fs);
    }
    Ok(output)
}

/// A failure in a file ends the run with that failure.
proof fn lemma_run_failure_persists(fs: Seq<Seq<Seq<char>>>, n: int, e: ParseError)
    requires
        0 <= n <= fs.len(),
        scan_files(initial_output(), fs.take(n)) == Err::<OutputView, ParseError>(e),
    ensures
        run_model(fs) == Err::<OutputView, ParseError>(e),
    decreases fs.len() - n,
{
    if n < fs.len() {
        assert(fs.take(n + 1).drop_last() =~= fs.take(n));
        lemma_run_failure_persists(fs, n + 1, e);
    } else {
        assert(fs.take(n) =~= fs);
    }
}

} // verus!
