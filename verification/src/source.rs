//! What stands between a file and its scan: which files are compressed, where a
//! line ends, and what the scan is told of each read.

use crate::collector::OutputRecord;
use crate::reader::{
    record_views, scan_failed, scan_file, scan_so_far, ScanErrorView, ScanState, YBLogReader,
};
use crate::text::{chars_of, ends_with, matches_at, slice_of};
use vstd::prelude::*;

verus! {

/// How the name of a compressed file ends.
pub open spec fn compressed_suffix() -> Seq<char> {
    ".gz"@
}

/// Whether the file of this name is compressed: whether the name ends in `.gz`.
pub fn is_compressed(file_name: &str) -> (b: bool)
    ensures
        b == ends_with(file_name@, compressed_suffix()),
{
    let name = chars_of(file_name);
    let suffix = chars_of(".gz");
    if name.len() < suffix.len() {
        return false;
    }
    matches_at(&name, name.len() - suffix.len(), &suffix)
}

/// A line as it was read, without the line feed at its end, and without the
/// carriage return before that line feed.
pub open spec fn without_line_ending(read: Seq<char>) -> Seq<char> {
    if read.len() > 0 && read.last() == '\n' {
        let line = read.drop_last();
        if line.len() > 0 && line.last() == '\r' {
            line.drop_last()
        } else {
            line
        }
    } else {
        read
    }
}

/// Takes the line ending off a line as it was read.
pub fn strip_line_ending(read: &str) -> (line: String)
    ensures
        line@ == without_line_ending(read@),
{
    let v = chars_of(read);
    let mut end: usize = v.len();
    if end > 0 && v[end - 1] == '\n' {
        end -= 1;
        if end > 0 && v[end - 1] == '\r' {
            end -= 1;
        }
    }
    proof {
        assert(v@.subrange(0, v.len() as int) =~= v@);
        if v.len() > 0 {
            assert(v@.subrange(0, v.len() - 1) =~= v@.drop_last());
            if v.len() > 1 {
                assert(v@.subrange(0, v.len() - 2) =~= v@.drop_last().drop_last());
            }
        }
    }
    slice_of(read, 0, end)
}

/// What a read of the file comes to.
#[derive(Clone, Debug, PartialEq, Eq)]
pub enum ReadEvent {
    /// The next line, without its line ending.
    Line(String),
    /// The end of the file.
    End,
    /// The file could not be opened or read; the text says what happened.
    Failed(String),
    /// The compressed data of the file could not be unpacked; the text says
    /// what happened.
    Corrupt(String),
}

/// A `ReadEvent` as a mathematical value.
pub enum ReadEventView {
    Line(Seq<char>),
    End,
    Failed(Seq<char>),
    Corrupt(Seq<char>),
}

impl View for ReadEvent {
    type V = ReadEventView;

    open spec fn view(&self) -> ReadEventView {
        match self {
            ReadEvent::Line(line) => ReadEventView::Line(line@),
            ReadEvent::End => ReadEventView::End,
            ReadEvent::Failed(reason) => ReadEventView::Failed(reason@),
            ReadEvent::Corrupt(reason) => ReadEventView::Corrupt(reason@),
        }
    }
}

/// What a read that filled `buffer` comes to: the end of the file where it read
/// nothing, else the line in the buffer, without its line ending.
pub fn line_read(bytes_read: usize, buffer: &str) -> (event: ReadEvent)
    ensures
        event@ == if bytes_read == 0 {
            ReadEventView::End
        } else {
            ReadEventView::Line(without_line_ending(buffer@))
        },
{
    if bytes_read == 0 {
        ReadEvent::End
    } else {
        ReadEvent::Line(strip_line_ending(buffer))
    }
}

/// Whether the file is to be read on after this event.
pub open spec fn reads_on(state: ScanState) -> bool {
    state == ScanState::ScanningPreambleWindow || state == ScanState::ScanningBody
}

/// Tells the scan what the last read came to. It gives the records that the
/// scan hands on, also those that a scan hands on when a read fails, and
/// whether the file is to be read on.
pub fn step(reader: &mut YBLogReader, event: ReadEvent) -> (action: (Vec<OutputRecord>, bool))
    requires
        old(reader).wf(),
    ensures
        final(reader).wf(),
        final(reader).source() == old(reader).source(),
        final(reader).search() == old(reader).search(),
        final(reader)@.records == old(reader)@.records + record_views(action.0@),
        action.1 == reads_on(final(reader)@.state),
        match event@ {
            ReadEventView::Line(line) => if old(reader).is_reading() {
                final(reader).history() == old(reader).history().push(line) && final(reader)@
                    == scan_so_far(
                    old(reader).search(),
                    old(reader).source(),
                    old(reader).history().push(line),
                )
            } else {
                final(reader).history() == old(reader).history() && final(reader)@ == old(reader)@
            },
            ReadEventView::End => if old(reader).is_reading() {
                final(reader).history() == old(reader).history() && final(reader)@ == scan_file(
                    old(reader).search(),
                    old(reader).source(),
                    old(reader).history(),
                )
            } else {
                final(reader).history() == old(reader).history() && final(reader)@ == old(reader)@
            },
            ReadEventView::Failed(reason) => final(reader).history() == old(reader).history()
                && final(reader)@ == scan_failed(
                old(reader).search(),
                old(reader).source(),
                old(reader).history(),
                old(reader)@,
                ScanErrorView::Io(reason),
            ),
            ReadEventView::Corrupt(reason) => final(reader).history() == old(reader).history()
                && final(reader)@ == scan_failed(
                old(reader).search(),
                old(reader).source(),
                old(reader).history(),
                old(reader)@,
                ScanErrorView::Decompression(reason),
            ),
        },
{
    let handed_on = match event {
        ReadEvent::Line(line) => reader.accept_line(line.as_str()),
        ReadEvent::End => reader.finish(),
        ReadEvent::Failed(reason) => reader.fail(reason, false),
        ReadEvent::Corrupt(reason) => reader.fail(reason, true),
    };
    let state = reader.state();
    let read_on = state == ScanState::ScanningPreambleWindow || state == ScanState::ScanningBody;
    (handed_on, read_on)
}

} // verus!
