//! The exporter: a history as tab-separated rows, one chunk at a time.
//!
//! The rows are written by a `csv::Writer`, one record each. A sample that
//! is older than the threshold of an export gets no row and no number.

use crate::process::{history_view, CurrentProcesses, EntryView, HistoryEntry, SnapshotView};
use crate::text::{decimal, decimal_digits, push_char};
use std::collections::VecDeque;
use vstd::prelude::*;
use vstd::string::StringExecFns;
use vstd::utf8::{decode_utf8, valid_utf8};

verus! {

/// `csv::Error`, of which nothing is known here.
#[verifier::external_type_specification]
#[verifier::external_body]
pub struct ExCsvError(csv::Error);

/// `std::string::FromUtf8Error`, of which nothing is known here.
#[verifier::external_type_specification]
#[verifier::external_body]
pub struct ExFromUtf8Error(std::string::FromUtf8Error);

/// Why a chunk could not be rendered.
#[derive(Debug, Clone, Copy, PartialEq, Eq, Structural)]
pub enum ExportError {
    /// The rows are not text.
    NotText,
}

impl ExportError {
    /// The error in words.
    pub open spec fn explained(self) -> Seq<char> {
        "the rows are not text"@
    }

    /// The error in words, as it is sent back in an `Error` signal.
    pub fn explanation(self) -> (text: String)
        ensures
            text@ == self.explained(),
    {
        "the rows are not text".to_owned()
    }
}

/// The byte that stands between two fields of a row: the tab.
pub const DELIMITER: u8 = 9;

/// The bytes that a `csv::Writer` with this delimiter writes for one record
/// of these fields, terminator included.
pub uninterp spec fn csv_record(fields: Seq<Seq<char>>, delimiter: u8) -> Seq<u8>;

/// What the strings of a vector say.
pub open spec fn texts(fields: Seq<String>) -> Seq<Seq<char>> {
    Seq::new(fields.len(), |i: int| fields[i]@)
}

/// `csv::WriterBuilder::delimiter`, `csv::WriterBuilder::from_writer`,
/// `csv::Writer::write_record` and `csv::Writer::into_inner`: the bytes of
/// one record written by a fresh writer into memory. Such a writer does
/// not fail: memory takes every byte, and the first record of a writer
/// sets the number of fields that later records are held to.
#[verifier::external_body]
fn write_record(fields: &Vec<String>, delimiter: u8) -> (written: Result<Vec<u8>, csv::Error>)
    ensures
        written is Ok,
        written matches Ok(bytes) ==> bytes@ == csv_record(texts(fields@), delimiter),
{
    let mut writer = csv::WriterBuilder::new().delimiter(delimiter).from_writer(Vec::new());
    writer.write_record(fields)?;
    writer.into_inner().map_err(|failed| csv::Error::from(failed.into_error()))
}

/// The bytes of one row: its fields with the tab between them.
fn record(fields: &Vec<String>) -> (bytes: Vec<u8>)
    ensures
        bytes@ == csv_record(texts(fields@), DELIMITER),
{
    match write_record(fields, DELIMITER) {
        Ok(bytes) => bytes,
        Err(_) => unreached(),
    }
}

/// `String::from_utf8`: the text that the bytes encode, where they are
/// UTF-8.
#[verifier::external_body]
fn text_of(bytes: Vec<u8>) -> (text: Result<String, std::string::FromUtf8Error>)
    ensures
        text is Ok <==> valid_utf8(bytes@),
        text matches Ok(t) ==> t@ == decode_utf8(bytes@),
{
    String::from_utf8(bytes)
}

/// One character of a command line as it stands in a row: a tab as a
/// backslash and `t`, a newline as a backslash and `n`, any other as itself.
pub open spec fn escaped_char(c: char) -> Seq<char> {
    if c == '\t' {
        seq!['\\', 't']
    } else if c == '\n' {
        seq!['\\', 'n']
    } else {
        seq![c]
    }
}

/// A command line as it stands in a row.
pub open spec fn escaped_text(text: Seq<char>) -> Seq<char>
    decreases text.len(),
{
    if text.len() == 0 {
        Seq::empty()
    } else {
        escaped_text(text.drop_last()) + escaped_char(text.last())
    }
}

/// An escaped command line holds neither the field delimiter nor the
/// record delimiter, so it can neither start a column nor a row.
pub proof fn lemma_escaped_has_no_delimiter(text: Seq<char>)
    ensures
        !escaped_text(text).contains('\t'),
        !escaped_text(text).contains('\n'),
    decreases text.len(),
{
    if text.len() > 0 {
        lemma_escaped_has_no_delimiter(text.drop_last());
        let head = escaped_text(text.drop_last());
        let tail = escaped_char(text.last());
        assert forall|i: int| 0 <= i < (head + tail).len() implies (head + tail)[i] != '\t' && (head
            + tail)[i] != '\n' by {
            if i < head.len() {
                assert(head.contains(head[i]));
            }
        }
    }
}

/// Escaping adds one character for each tab and each newline.
pub proof fn lemma_escaped_len(text: Seq<char>)
    ensures
        text.len() <= escaped_text(text).len() <= 2 * text.len(),
    decreases text.len(),
{
    if text.len() > 0 {
        lemma_escaped_len(text.drop_last());
    }
}

/// Replaces the tabs and newlines of a command line by their two-character
/// escapes.
pub fn escape_cmdline(cmdline: &str) -> (escaped: String)
    ensures
        escaped@ == escaped_text(cmdline@),
{
    let ghost s = cmdline@;
    let mut escaped = String::new();
    assert(s.take(0) =~= Seq::<char>::empty());
    for c in it: cmdline.chars()
        invariant
            it.seq() == s,
            escaped@ == escaped_text(s.take(it.index() as int)),
    {
        let ghost i = it.index() as int;
        assert(s.take(i + 1).drop_last() =~= s.take(i));
        assert(s.take(i + 1).last() == c);
        let ghost before = escaped@;
        if c == '\t' {
            push_char(&mut escaped, '\\');
            push_char(&mut escaped, 't');
        } else if c == '\n' {
            push_char(&mut escaped, '\\');
            push_char(&mut escaped, 'n');
        } else {
            push_char(&mut escaped, c);
        }
        assert(escaped@ =~= before + escaped_char(c));
    }
    assert(s.take(s.len() as int) =~= s);
    escaped
}

/// The fields of the header row.
pub open spec fn header_fields() -> Seq<Seq<char>> {
    seq!["Iteration"@, "Timestamp"@, "PID"@, "Name"@, "Memory MB"@, "Command line"@]
}

/// The fields of the row of one entry: the 1-based place of its sample
/// among the samples that are exported, the sample's timestamp, and the
/// entry's pid, name, megabytes and escaped command line.
pub open spec fn row_fields(iteration: nat, timestamp: u128, entry: EntryView) -> Seq<Seq<char>> {
    seq![
        decimal_digits(iteration),
        decimal_digits(timestamp as nat),
        decimal_digits(entry.process.pid as nat),
        entry.process.name,
        decimal_digits(entry.memory_mb as nat),
        escaped_text(entry.process.commandline),
    ]
}

/// The rows of one sample, one for each entry, in the sample's order.
pub open spec fn snapshot_rows(snapshot: SnapshotView, iteration: nat) -> Seq<Seq<Seq<char>>> {
    Seq::new(
        snapshot.entries.len(),
        |i: int| row_fields(iteration, snapshot.timestamp, snapshot.entries[i]),
    )
}

/// The number of samples before `position` that an export of what is not
/// older than `since` holds.
pub open spec fn exported_before(history: Seq<SnapshotView>, position: int, since: u128) -> nat
    decreases position,
{
    if position <= 0 {
        0
    } else {
        exported_before(history, position - 1, since) + if history[position - 1].timestamp
            >= since {
            1nat
        } else {
            0nat
        }
    }
}

/// The rows that the sample at `position` of a history contributes to an
/// export of what is not older than `since`: all of its rows, or none.
/// Its rows carry its place among the samples that are exported: a sample
/// that is left out does not count.
pub open spec fn exported_rows(history: Seq<SnapshotView>, position: int, since: u128) -> Seq<
    Seq<Seq<char>>,
> {
    if history[position].timestamp < since {
        Seq::empty()
    } else {
        snapshot_rows(history[position], exported_before(history, position, since) + 1)
    }
}

/// The bytes of some records, one after the other, each with the tab
/// between its fields.
pub open spec fn records_bytes(records: Seq<Seq<Seq<char>>>) -> Seq<u8>
    decreases records.len(),
{
    if records.len() == 0 {
        Seq::empty()
    } else {
        records_bytes(records.drop_last()) + csv_record(records.last(), DELIMITER)
    }
}

/// No more samples are exported than there are.
pub proof fn lemma_exported_before_bound(history: Seq<SnapshotView>, position: int, since: u128)
    requires
        0 <= position,
    ensures
        exported_before(history, position, since) <= position,
    decreases position,
{
    if position > 0 {
        lemma_exported_before_bound(history, position - 1, since);
    }
}

/// The header row.
pub fn header() -> (fields: Vec<String>)
    ensures
        texts(fields@) == header_fields(),
{
    let mut fields: Vec<String> = Vec::new();
    fields.push("Iteration".to_owned());
    fields.push("Timestamp".to_owned());
    fields.push("PID".to_owned());
    fields.push("Name".to_owned());
    fields.push("Memory MB".to_owned());
    fields.push("Command line".to_owned());
    assert(texts(fields@) =~= header_fields());
    fields
}

/// The row of one entry.
pub fn row(iteration: usize, timestamp: u128, entry: &HistoryEntry) -> (fields: Vec<String>)
    ensures
        texts(fields@) == row_fields(iteration as nat, timestamp, entry@),
{
    let mut fields: Vec<String> = Vec::new();
    fields.push(decimal(iteration as u128));
    fields.push(decimal(timestamp));
    fields.push(decimal(entry.process.pid as u128));
    fields.push(entry.process.name.clone());
    fields.push(decimal(entry.memory_mb as u128));
    fields.push(escape_cmdline(entry.process.commandline.as_str()));
    assert(texts(fields@) =~= row_fields(iteration as nat, timestamp, entry@));
    fields
}

/// Whether a sample stamped `timestamp` is at most `time_sec` seconds older
/// than `now`. Where no span is given, every sample is.
pub open spec fn is_recent(timestamp: u128, now: u128, time_sec: Option<usize>) -> bool {
    time_sec matches Some(seconds) ==> timestamp >= now - seconds * 1000
}

/// The timestamp from which samples are exported: `time_sec` seconds
/// before `now`, and the beginning of time where no span is given or the
/// span reaches back beyond it.
pub open spec fn threshold(now: u128, time_sec: Option<usize>) -> u128 {
    match time_sec {
        Some(seconds) => if seconds * 1000 > now {
            0u128
        } else {
            (now - seconds * 1000) as u128
        },
        None => 0u128,
    }
}

/// The timestamp from which samples are exported.
pub fn since(now: u128, time_sec: Option<usize>) -> (from: u128)
    ensures
        from == threshold(now, time_sec),
        forall|timestamp: u128| #[trigger] is_recent(timestamp, now, time_sec) <==> timestamp >= from,
{
    match time_sec {
        Some(seconds) => {
            let span: u128 = seconds as u128 * 1000;
            if span > now {
                0
            } else {
                now - span
            }
        },
        None => 0,
    }
}

/// Filtering. A sample that is at most `time_sec` seconds older than `now`
/// is exported with one row for each of its entries, numbered by its place
/// among the exported samples; any other sample is exported with no row at
/// all and takes no place.
pub proof fn lemma_export_filters(
    history: Seq<SnapshotView>,
    position: int,
    now: u128,
    time_sec: Option<usize>,
)
    requires
        0 <= position < history.len(),
    ensures
        is_recent(history[position].timestamp, now, time_sec) ==> exported_rows(
            history,
            position,
            threshold(now, time_sec),
        ) == snapshot_rows(
            history[position],
            exported_before(history, position, threshold(now, time_sec)) + 1,
        ) && exported_rows(history, position, threshold(now, time_sec)).len()
            == history[position].entries.len() && exported_before(
            history,
            position + 1,
            threshold(now, time_sec),
        ) == exported_before(history, position, threshold(now, time_sec)) + 1,
        !is_recent(history[position].timestamp, now, time_sec) ==> exported_rows(
            history,
            position,
            threshold(now, time_sec),
        ) == Seq::<Seq<Seq<char>>>::empty() && exported_before(
            history,
            position + 1,
            threshold(now, time_sec),
        ) == exported_before(history, position, threshold(now, time_sec)),
{
}

/// Where no sample is left out, each sample is numbered by its place in
/// the history.
pub proof fn lemma_all_exported(history: Seq<SnapshotView>, position: int)
    requires
        0 <= position <= history.len(),
    ensures
        exported_before(history, position, 0) == position,
    decreases position,
{
    if position > 0 {
        lemma_all_exported(history, position - 1);
    }
}

/// The chunk that some bytes make: their text, or that they are none.
pub open spec fn chunk_of(bytes: Seq<u8>) -> Result<Seq<char>, ExportError> {
    if valid_utf8(bytes) {
        Ok(decode_utf8(bytes))
    } else {
        Err(ExportError::NotText)
    }
}

/// What a chunk, or the failure to render one, says.
pub open spec fn text_view(chunk: Result<String, ExportError>) -> Result<Seq<char>, ExportError> {
    match chunk {
        Ok(text) => Ok(text@),
        Err(e) => Err(e),
    }
}

/// What became of the bytes of a chunk: its text, or that it is none.
fn finish(bytes: Vec<u8>) -> (chunk: Result<String, ExportError>)
    ensures
        text_view(chunk) == chunk_of(bytes@),
{
    match text_of(bytes) {
        Ok(text) => Ok(text),
        Err(_) => Err(ExportError::NotText),
    }
}

/// Renders a history chunk by chunk: first the header row, then the rows
/// of one sample at a time, oldest sample first.
pub struct CsvIterator<'a> {
    input: &'a VecDeque<CurrentProcesses>,
    position: usize,
    exported: usize,
    started: bool,
    write_since: u128,
}

impl<'a> CsvIterator<'a> {
    /// The history that is rendered.
    pub closed spec fn input(&self) -> Seq<CurrentProcesses> {
        self.input@
    }

    /// The number of samples that were rendered or left out so far.
    pub closed spec fn position(&self) -> nat {
        self.position as nat
    }

    /// The number of samples that were rendered so far.
    pub closed spec fn counted(&self) -> nat {
        self.exported as nat
    }

    /// Whether the header row was handed out.
    pub closed spec fn started(&self) -> bool {
        self.started
    }

    /// The timestamp from which samples are rendered.
    pub closed spec fn write_since(&self) -> u128 {
        self.write_since
    }

    /// The exporter has not gone beyond the history, and has counted the
    /// samples that it has rendered.
    pub open spec fn wf(&self) -> bool {
        &&& self.position() <= self.input().len()
        &&& self.counted() == exported_before(
            history_view(self.input()),
            self.position() as int,
            self.write_since(),
        )
    }

    /// The bytes of the chunk that comes next, if one does.
    pub open spec fn next_bytes(&self) -> Option<Seq<u8>> {
        if !self.started() {
            Some(records_bytes(seq![header_fields()]))
        } else if self.position() < self.input().len() {
            Some(
                records_bytes(
                    exported_rows(
                        history_view(self.input()),
                        self.position() as int,
                        self.write_since(),
                    ),
                ),
            )
        } else {
            None
        }
    }

    /// An exporter of the samples of `input` that are at most `time_sec`
    /// seconds older than `now`, or of all of them where no span is given.
    pub fn new(time_sec: Option<usize>, now: u128, input: &'a VecDeque<CurrentProcesses>) -> (it:
        CsvIterator<'a>)
        ensures
            it.wf(),
            it.input() == input@,
            it.position() == 0,
            !it.started(),
            it.write_since() == threshold(now, time_sec),
    {
        CsvIterator {
            input,
            position: 0,
            exported: 0,
            started: false,
            write_since: since(now, time_sec),
        }
    }

    /// The next chunk, or `None` after the last sample.
    ///
    /// A chunk is the text of its rows as the row writer writes them, and
    /// an error where what the row writer wrote is no text. The chunk of
    /// a sample that is older than the threshold is empty.
    pub fn next(&mut self) -> (chunk: Option<Result<String, ExportError>>)
        requires
            old(self).wf(),
        ensures
            final(self).wf(),
            final(self).input() == old(self).input(),
            final(self).write_since() == old(self).write_since(),
            final(self).started(),
            final(self).position() == if old(self).started() && chunk is Some {
                old(self).position() + 1
            } else {
                old(self).position()
            },
            chunk is Some <==> old(self).next_bytes() is Some,
            chunk matches Some(rendered) ==> text_view(rendered) == chunk_of(
                old(self).next_bytes()->0,
            ),
            old(self).started() && old(self).position() < old(self).input().len() && old(
                self,
            ).input()[old(self).position() as int].timestamp < old(self).write_since()
                ==> (chunk matches Some(Ok(text)) && text@.len() == 0),
    {
        if !self.started {
            self.started = true;
            let fields = header();
            let bytes = record(&fields);
            proof {
                assert(seq![header_fields()].drop_last() =~= Seq::<Seq<Seq<char>>>::empty());
                assert(seq![header_fields()].last() == header_fields());
                assert(records_bytes(seq![header_fields()].drop_last()) =~= Seq::<u8>::empty());
                assert(bytes@ =~= records_bytes(seq![header_fields()]));
            }
            return Some(finish(bytes));
        }
        if self.position >= self.input.len() {
            return None;
        }
        let processes = &self.input[self.position];
        let ghost history = history_view(self.input@);
        let ghost at = self.position as int;
        let ghost rows = exported_rows(history, at, self.write_since);
        proof {
            lemma_exported_before_bound(history, at, self.write_since);
            assert(history[at].timestamp == processes.timestamp);
            assert(history[at] == processes@);
        }
        self.position = self.position + 1;
        let mut bytes: Vec<u8> = Vec::new();
        if processes.timestamp < self.write_since {
            assert(bytes@ =~= records_bytes(rows));
            proof {
                vstd::utf8::decode_utf8_encode_utf8(bytes@);
            }
            let text = String::new();
            assert(valid_utf8(bytes@));
            assert(decode_utf8(bytes@) =~= text@);
            return Some(Ok(text));
        }
        self.exported = self.exported + 1;
        let iteration = self.exported;
        let mut i: usize = 0;
        let ghost advanced = *self;
        assert(rows.take(0) =~= Seq::<Seq<Seq<char>>>::empty());
        while i < processes.entries.len()
            invariant
                *self == advanced,
                advanced.wf(),
                advanced.started(),
                advanced.input() == old(self).input(),
                advanced.write_since() == old(self).write_since(),
                advanced.position() == old(self).position() + 1,
                old(self).started(),
                old(self).next_bytes() == Some(records_bytes(rows)),
                processes.timestamp >= advanced.write_since(),
                processes == old(self).input()[old(self).position() as int],
                i <= processes.entries@.len(),
                rows == snapshot_rows(processes@, iteration as nat),
                bytes@ == records_bytes(rows.take(i as int)),
            decreases processes.entries@.len() - i,
        {
            let fields = row(iteration, processes.timestamp, &processes.entries[i]);
            assert(rows.take(i + 1).drop_last() =~= rows.take(i as int));
            assert(rows.take(i + 1).last() == texts(fields@));
            let mut written = record(&fields);
            bytes.append(&mut written);
            i = i + 1;
        }
        assert(rows.take(rows.len() as int) =~= rows);
        Some(finish(bytes))
    }
}

/// The text of an export up to, not including, the sample at `upto`: the
/// header row, then the rows of each sample that is not older than `since`.
pub open spec fn report_upto(history: Seq<SnapshotView>, since: u128, upto: int) -> Seq<char>
    decreases upto,
{
    if upto <= 0 {
        decode_utf8(records_bytes(seq![header_fields()]))
    } else {
        report_upto(history, since, upto - 1) + decode_utf8(
            records_bytes(exported_rows(history, upto - 1, since)),
        )
    }
}

/// Whether the header row and the rows of each sample before `upto` are
/// written as text.
pub open spec fn is_text_upto(history: Seq<SnapshotView>, since: u128, upto: int) -> bool
    decreases upto,
{
    if upto <= 0 {
        valid_utf8(records_bytes(seq![header_fields()]))
    } else {
        is_text_upto(history, since, upto - 1) && valid_utf8(
            records_bytes(exported_rows(history, upto - 1, since)),
        )
    }
}

/// A whole export of a history: its text where the header row and the rows
/// of every sample are written as text, else the error that they are not.
pub open spec fn rendered(history: Seq<SnapshotView>, since: u128) -> Result<
    Seq<char>,
    ExportError,
> {
    if is_text_upto(history, since, history.len() as int) {
        Ok(report_upto(history, since, history.len() as int))
    } else {
        Err(ExportError::NotText)
    }
}

/// An exporter that renders into memory the samples of `input` that are
/// at most `time_sec` seconds older than `now`.
pub fn iterator_on_buffer<'a>(
    input: &'a VecDeque<CurrentProcesses>,
    time_sec: Option<usize>,
    now: u128,
) -> (it: CsvIterator<'a>)
    ensures
        it.wf(),
        it.input() == input@,
        it.position() == 0,
        !it.started(),
        it.write_since() == threshold(now, time_sec),
{
    CsvIterator::new(time_sec, now, input)
}

/// Renders a whole export as one text: the header row, then one row for
/// each entry of each sample that is at most `time_sec` seconds older than
/// `now`, oldest sample first.
pub fn render(input: &VecDeque<CurrentProcesses>, time_sec: Option<usize>, now: u128) -> (report:
    Result<String, ExportError>)
    ensures
        text_view(report) == rendered(history_view(input@), threshold(now, time_sec)),
{
    let ghost history = history_view(input@);
    let ghost from = threshold(now, time_sec);
    let mut chunks = iterator_on_buffer(input, time_sec, now);
    let mut report = String::new();
    loop
        invariant
            chunks.wf(),
            chunks.input() == input@,
            chunks.write_since() == from,
            from == threshold(now, time_sec),
            history == history_view(input@),
            history.len() == input@.len(),
            !chunks.started() ==> chunks.position() == 0 && report@.len() == 0,
            chunks.started() ==> is_text_upto(history, from, chunks.position() as int) && report@
                == report_upto(history, from, chunks.position() as int),
        decreases input@.len() - chunks.position() + if chunks.started() {
            0int
        } else {
            1int
        },
    {
        let ghost at = chunks.position() as int;
        let ghost begun = chunks.started();
        let ghost before = report@;
        match chunks.next() {
            Some(Ok(text)) => {
                report.append(text.as_str());
                proof {
                    if !begun {
                        assert(report@ =~= text@);
                    }
                }
            },
            Some(Err(e)) => {
                proof {
                    let reached = if begun {
                        at + 1
                    } else {
                        0
                    };
                    assert(!is_text_upto(history, from, reached));
                    if is_text_upto(history, from, history.len() as int) {
                        lemma_text_prefix(history, from, reached, history.len() as int);
                    }
                }
                return Err(e);
            },
            None => {
                assert(at == history.len());
                return Ok(report);
            },
        }
    }
}

/// Where a whole export is text, so is each part of it from the start.
proof fn lemma_text_prefix(history: Seq<SnapshotView>, since: u128, part: int, whole: int)
    requires
        part <= whole,
        is_text_upto(history, since, whole),
    ensures
        is_text_upto(history, since, part),
    decreases whole - part,
{
    if part < whole {
        if whole > 0 {
            lemma_text_prefix(history, since, part, whole - 1);
        }
    }
}

} // verus!
