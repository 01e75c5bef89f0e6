//! The row assembler's output side: the three columns of a record, their
//! quoting, and the CSV lines that the writer makes of them.
//!
//! The CSV writer is told never to quote. The name and the attributes are
//! wrapped in quotes here, as they are; the e-mail address is quoted the
//! standard way, and only where it holds a comma or a quote.

use crate::text::has_char;
use vstd::prelude::*;
use vstd::string::StringExecFns;

verus! {

/// The error type of the `csv` crate, carried through as it is.
#[verifier::external_type_specification]
#[verifier::external_body]
pub struct ExCsvError(csv::Error);

/// The three columns of one output row, before any quoting.
#[derive(Clone, Debug, PartialEq, Eq)]
pub struct OutputRecord {
    pub email: String,
    pub name: String,
    pub attributes: String,
}

/// The mathematical content of an [`OutputRecord`].
pub struct OutputRecordView {
    pub email: Seq<char>,
    pub name: Seq<char>,
    pub attributes: Seq<char>,
}

impl View for OutputRecord {
    type V = OutputRecordView;

    open spec fn view(&self) -> OutputRecordView {
        OutputRecordView { email: self.email@, name: self.name@, attributes: self.attributes@ }
    }
}

/// The contents of a list of records, in order.
pub open spec fn records_view(records: Seq<OutputRecord>) -> Seq<OutputRecordView> {
    records.map_values(|r: OutputRecord| r@)
}

/// The output could not be written.
#[derive(Clone, Copy, Debug, PartialEq, Eq)]
pub struct WriteError;

/// `text` between two quotes, as it is.
pub open spec fn quoted(text: Seq<char>) -> Seq<char> {
    seq!['"'] + text + seq!['"']
}

/// `text` with every quote written twice.
pub open spec fn quotes_doubled(text: Seq<char>) -> Seq<char>
    decreases text.len(),
{
    if text.len() == 0 {
        text
    } else if text.last() == '"' {
        quotes_doubled(text.drop_last()) + seq!['"', '"']
    } else {
        quotes_doubled(text.drop_last()).push(text.last())
    }
}

/// Whether an e-mail address has to be quoted: it holds a comma or a quote.
pub open spec fn needs_quotes(email: Seq<char>) -> bool {
    email.contains(',') || email.contains('"')
}

/// The e-mail column: the address as it is or, where it has to be quoted,
/// between quotes with its own quotes doubled.
pub open spec fn email_column(email: Seq<char>) -> Seq<char> {
    if needs_quotes(email) {
        quoted(quotes_doubled(email))
    } else {
        email
    }
}

/// One CSV line of three fields that are written as they are.
pub open spec fn record_line(first: Seq<char>, second: Seq<char>, third: Seq<char>) -> Seq<char> {
    first + seq![','] + second + seq![','] + third + seq!['\n']
}

/// The line of a record.
pub open spec fn row_line(record: OutputRecordView) -> Seq<char> {
    record_line(email_column(record.email), quoted(record.name), quoted(record.attributes))
}

/// The header line.
pub open spec fn header_line() -> Seq<char> {
    record_line("email"@, "name"@, "attributes"@)
}

/// The lines of the records, one after the other.
pub open spec fn row_lines(records: Seq<OutputRecordView>) -> Seq<char>
    decreases records.len(),
{
    if records.len() == 0 {
        Seq::empty()
    } else {
        row_lines(records.drop_last()) + row_line(records.last())
    }
}

/// A whole table: the header line and the lines of the records.
pub open spec fn table(records: Seq<OutputRecordView>) -> Seq<char> {
    header_line() + row_lines(records)
}

/// Wraps `text` in quotes. Nothing inside it is escaped.
pub fn quote(text: &str) -> (out: String)
    ensures
        out@ == quoted(text@),
{
    let mut out = String::new();
    out.push('"');
    out.append(text);
    out.push('"');
    out
}

/// The e-mail column of a row: `email` itself, unless it holds a comma or a
/// quote; then it is put between quotes and each of its quotes is doubled.
pub fn escape_email(email: &str) -> (out: String)
    ensures
        out@ == email_column(email@),
{
    if has_char(email, ',') || has_char(email, '"') {
        let mut out = String::new();
        out.push('"');
        for c in it: email.chars()
            invariant
                it.seq() == email@,
                out@ == seq!['"'] + quotes_doubled(email@.take(it.index())),
        {
            let ghost done = email@.take(it.index());
            let ghost next = email@.take(it.index() + 1);
            assert(next.drop_last() =~= done);
            if c == '"' {
                out.push('"');
            }
            out.push(c);
        }
        assert(email@.take(email@.len() as int) =~= email@);
        out.push('"');
        out
    } else {
        email.to_owned()
    }
}

/// Writes one record of three fields with `csv::Writer::write_record`, on a
/// writer that `csv::WriterBuilder` made with `QuoteStyle::Never` over a
/// buffer in memory, and hands back what the writer put into the buffer.
/// Such a writer copies each field as it is, puts a comma between two fields
/// and ends the record with a line feed. It does not fail: the writer's only
/// errors are those of what it writes to, and a buffer in memory has none,
/// and a record whose field count differs from the first record's, and this
/// record is the writer's first.
#[verifier::external_body]
fn csv_write_record(first: &str, second: &str, third: &str) -> (written: Result<String, csv::Error>)
    ensures
        written is Ok,
        written matches Ok(line) ==> line@ == record_line(first@, second@, third@),
{
    let mut writer = csv::WriterBuilder::new()
        .quote_style(csv::QuoteStyle::Never)
        .from_writer(Vec::new());
    writer.write_record([first, second, third])?;
    writer.flush()?;
    Ok(String::from_utf8_lossy(writer.get_ref()).into_owned())
}

/// Appends to `out` the line that the CSV writer made, or reports that it
/// failed and leaves `out` as it is.
pub fn append_written(out: &mut String, written: Result<String, csv::Error>) -> (done: Result<
    (),
    WriteError,
>)
    ensures
        match written {
            Ok(line) => done is Ok && final(out)@ == old(out)@ + line@,
            Err(_) => done is Err && final(out)@ == old(out)@,
        },
{
    match written {
        Ok(line) => {
            out.append(line.as_str());
            Ok(())
        },
        Err(_) => Err(WriteError),
    }
}

/// Appends the header line `email,name,attributes` to `out`.
pub fn emit_header(out: &mut String) -> (done: Result<(), WriteError>)
    ensures
        done is Ok,
        final(out)@ == old(out)@ + header_line(),
{
    let written = csv_write_record("email", "name", "attributes");
    append_written(out, written)
}

/// Appends the line of `record` to `out`: the e-mail column, the quoted name
/// and the quoted attributes.
pub fn emit(out: &mut String, record: &OutputRecord) -> (done: Result<(), WriteError>)
    ensures
        done is Ok,
        final(out)@ == old(out)@ + row_line(record@),
{
    let email = escape_email(record.email.as_str());
    let name = quote(record.name.as_str());
    let attributes = quote(record.attributes.as_str());
    let written = csv_write_record(email.as_str(), name.as_str(), attributes.as_str());
    append_written(out, written)
}

/// Writes a whole table: the header line, then one line for each record in
/// order.
pub fn write_table(records: &[OutputRecord]) -> (out: Result<String, WriteError>)
    ensures
        out is Ok,
        out matches Ok(text) ==> text@ == table(records_view(records@)),
{
    let mut text = String::new();
    match emit_header(&mut text) {
        Ok(()) => {},
        Err(e) => {
            return Err(e);
        },
    }
    let ghost all = records_view(records@);
    let mut i: usize = 0;
    while i < records.len()
        invariant
            i <= records.len(),
            all == records_view(records@),
            text@ == table(all.take(i as int)),
        decreases records.len() - i,
    {
        proof {
            assert(all.take(i + 1).drop_last() =~= all.take(i as int));
        }
        match emit(&mut text, &records[i]) {
            Ok(()) => {},
            Err(e) => {
                return Err(e);
            },
        }
        i += 1;
    }
    assert(all.take(i as int) =~= all);
    Ok(text)
}

} // verus!
