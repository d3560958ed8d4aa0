//! What is written out for a log line: the selected fields, joined.

use vstd::prelude::*;

use crate::entry::{Error, LogEntry};
use crate::field::{decode_list, joined, Field, FieldErrorView, Fields};
use crate::grammar::{parse_line, LogEntryView};
use crate::slicer::SliceError;

verus! {

/// The line feed that ends a line of output.
pub const NEWLINE: u8 = 0x0a;

/// The tab that separates the fields where no other delimiter is asked for.
pub const TAB: u8 = 0x09;

/// The line of output for an entry: the contents of the fields in their
/// order, with the delimiter between them, and a line feed at the end.
pub open spec fn output_line(fields: Seq<Field>, entry: LogEntryView, delimiter: Seq<u8>) -> Seq<u8> {
    joined(fields, entry, delimiter) + seq![NEWLINE]
}

/// The output for a line of the log: the line of output for its entry, or
/// none where the line does not parse.
pub open spec fn cut(fields: Seq<Field>, line: Seq<u8>, delimiter: Seq<u8>) -> Option<Seq<u8>> {
    match parse_line(line) {
        Ok(entry) => Some(output_line(fields, entry, delimiter)),
        Err(_) => None,
    }
}

/// The delimiter to use: the one that was asked for, or a tab where none was.
pub fn delimiter_or_tab<'a>(delimiter: &'a [u8]) -> (r: &'a [u8])
    ensures
        r@ == if delimiter@.len() == 0 {
            seq![TAB]
        } else {
            delimiter@
        },
{
    if delimiter.len() == 0 {
        let tab: &[u8] = &[TAB];
        assert(tab@ =~= seq![TAB]);
        tab
    } else {
        delimiter
    }
}

/// Appends to `out` the line of output for `entry`.
pub fn write_entry(fields: &Fields, entry: &LogEntry, delimiter: &[u8], out: &mut Vec<u8>)
    ensures
        final(out)@ == old(out)@ + output_line(fields@, entry@, delimiter@),
{
    fields.write_joined(entry, delimiter, out);
    out.push(NEWLINE);
    assert(out@ =~= old(out)@ + output_line(fields@, entry@, delimiter@));
}

/// Parses `line` and appends its line of output to `out`. Where the line
/// does not parse, nothing is appended and the error says why.
pub fn cut_line(fields: &Fields, line: &[u8], delimiter: &[u8], out: &mut Vec<u8>) -> (r: Result<
    (),
    Error,
>)
    ensures
        match r {
            Ok(_) => {
                &&& cut(fields@, line@, delimiter@) matches Some(written)
                &&& final(out)@ == old(out)@ + written
            },
            Err(e) => {
                &&& e matches Error::SliceError(cause)
                &&& parse_line(line@) == Err::<LogEntryView, _>(cause)
                &&& cut(fields@, line@, delimiter@) is None
                &&& final(out)@ == old(out)@
            },
        },
{
    match LogEntry::from_bytes(line) {
        Ok(entry) => {
            write_entry(fields, &entry, delimiter, out);
            Ok(())
        },
        Err(e) => Err(e),
    }
}

/// What is to be done with a line of the log once it has been looked at.
#[derive(Debug, Clone, Copy, PartialEq, Eq)]
pub enum Action {
    /// The line parsed: write out what was appended to the output.
    Emit,
    /// The line did not parse, and such lines are to be shown: write the
    /// line itself to the diagnostic stream.
    Report,
    /// The line did not parse, and such lines are passed over in silence.
    Skip,
}

/// What is to be done with `line`: where it parses, its line of output is
/// appended to `out` and is to be written; where it does not, nothing is
/// appended, and the line is to be reported if `show_invalid` asks for it.
pub open spec fn action_for(line: Seq<u8>, show_invalid: bool) -> Action {
    if parse_line(line) is Ok {
        Action::Emit
    } else if show_invalid {
        Action::Report
    } else {
        Action::Skip
    }
}

/// Looks at one line of the log, appends its line of output to `out` where
/// there is one, and says what is to be done with it.
pub fn process_line(
    fields: &Fields,
    line: &[u8],
    delimiter: &[u8],
    show_invalid: bool,
    out: &mut Vec<u8>,
) -> (action: Action)
    ensures
        action == action_for(line@, show_invalid),
        final(out)@ == match cut(fields@, line@, delimiter@) {
            Some(written) => old(out)@ + written,
            None => old(out)@,
        },
{
    match cut_line(fields, line, delimiter, out) {
        Ok(()) => Action::Emit,
        Err(_) => {
            if show_invalid {
                Action::Report
            } else {
                Action::Skip
            }
        },
    }
}

/// Whether the output is to be flushed after every line: where it goes to
/// a terminal, or where that was asked for.
pub fn flush_each_line(interactive: bool, line_buffered: bool) -> (r: bool)
    ensures
        r == (interactive || line_buffered),
{
    interactive || line_buffered
}

/// An empty selection decodes from the empty list, and the output for a
/// line that parses is then the line feed alone.
pub proof fn lemma_empty_selection(line: Seq<u8>, delimiter: Seq<u8>)
    ensures
        decode_list(Seq::empty()) == Ok::<_, FieldErrorView>(Seq::<Field>::empty()),
        parse_line(line) is Ok ==> cut(Seq::empty(), line, delimiter) == Some(seq![NEWLINE]),
        parse_line(line) is Err ==> cut(Seq::empty(), line, delimiter) is None,
{
    if parse_line(line) is Ok {
        let entry = parse_line(line)->Ok_0;
        assert(output_line(Seq::empty(), entry, delimiter) =~= seq![NEWLINE]);
    }
}

/// Doing it twice gives the same: two selections decoded from one list of
/// names hold the same fields in the same order, and so give the same
/// output for a line; and two entries parsed from one line give the same
/// output under one selection.
pub proof fn lemma_cut_repeats(
    names: Seq<u8>,
    first: Seq<Field>,
    second: Seq<Field>,
    line: Seq<u8>,
    once: LogEntryView,
    again: LogEntryView,
    delimiter: Seq<u8>,
)
    requires
        decode_list(names) == Ok::<_, FieldErrorView>(first),
        decode_list(names) == Ok::<_, FieldErrorView>(second),
        parse_line(line) == Ok::<_, SliceError>(once),
        parse_line(line) == Ok::<_, SliceError>(again),
    ensures
        first == second,
        once == again,
        output_line(first, once, delimiter) == output_line(second, again, delimiter),
        cut(first, line, delimiter) == Some(output_line(second, again, delimiter)),
        forall|k: int|
            0 <= k < first.len() ==> (#[trigger] first[k]).content(once) == second[k].content(again),
{
}

} // verus!
