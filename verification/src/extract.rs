//! The record extractor: from the decoded content of one file to the
//! records of its lines.
//!
//! Content is cut at line feeds. A line feed ends a line and the carriage
//! return that may stand before it belongs to the terminator; what follows
//! the last line feed is a line of its own unless it is empty. A line that
//! is not UTF-8 is passed over, and so is one with nothing but whitespace
//! on it. Both still count: the number of a record is the position of its
//! line among all lines of the content.

use crate::record::{record_views, Origin, OriginView, Record, RecordView};
use crate::text::{
    blank, decode, is_blank, lemma_decode_single_line, lemma_span_before,
    lemma_span_holds_no_stop, no_line_feed, single_line, span_before,
};
use vstd::prelude::*;
use vstd::slice::slice_subrange;
use vstd::string::StringExecFns;
use vstd::utf8::{decode_utf8, valid_utf8};

verus! {

/// The line feed that ends a line.
pub const LF: u8 = 0x0a;

/// The carriage return that may stand before a line feed.
pub const CR: u8 = 0x0d;

/// Number of bytes in front of the first line feed of `content`, or the
/// length of `content` where it holds none.
pub open spec fn line_end(content: Seq<u8>) -> int {
    span_before(content, LF)
}

/// `line` without the carriage return at its end, if it ends in one.
pub open spec fn without_cr(line: Seq<u8>) -> Seq<u8> {
    if line.len() > 0 && line.last() == CR {
        line.drop_last()
    } else {
        line
    }
}

/// The lines of `content`, without their terminators.
pub open spec fn split_lines(content: Seq<u8>) -> Seq<Seq<u8>>
    decreases content.len(),
{
    if content.len() == 0 {
        Seq::<Seq<u8>>::empty()
    } else {
        let end = line_end(content);
        if 0 <= end < content.len() {
            seq![without_cr(content.take(end))] + split_lines(content.skip(end + 1))
        } else {
            seq![content]
        }
    }
}

/// The record for the line `line` at position `number`, if the line gets
/// one: it has to be UTF-8 and must not be blank.
pub open spec fn line_record(
    path: Seq<char>,
    origin: OriginView,
    number: nat,
    line: Seq<u8>,
) -> Option<RecordView> {
    if valid_utf8(line) && !blank(decode_utf8(line)) {
        Some(RecordView { source_path: path, line_number: number, text: decode_utf8(line), origin })
    } else {
        None
    }
}

/// The records of `lines`, each under the position of its line.
pub open spec fn records_of_lines(
    path: Seq<char>,
    origin: OriginView,
    lines: Seq<Seq<u8>>,
) -> Seq<RecordView>
    decreases lines.len(),
{
    if lines.len() == 0 {
        Seq::<RecordView>::empty()
    } else {
        let before = records_of_lines(path, origin, lines.drop_last());
        match line_record(path, origin, (lines.len() - 1) as nat, lines.last()) {
            Some(record) => before.push(record),
            None => before,
        }
    }
}

/// The records of the file at `path` whose decoded content is `content`.
pub open spec fn extract(path: Seq<char>, origin: OriginView, content: Seq<u8>) -> Seq<
    RecordView,
> {
    records_of_lines(path, origin, split_lines(content))
}

/// Extracts the records of the file at `path` from its decoded content.
pub fn extract_records(path: &str, origin: &Origin, content: &[u8]) -> (records: Vec<Record>)
    ensures
        record_views(records@) == extract(path@, origin@, content@),
{
    let mut records: Vec<Record> = Vec::new();
    let mut pos: usize = 0;
    let mut number: usize = 0;
    let ghost mut lines: Seq<Seq<u8>> = Seq::empty();
    proof {
        assert(content@.skip(0) =~= content@);
        assert(lines + split_lines(content@) =~= split_lines(content@));
        assert(record_views(records@) =~= records_of_lines(path@, origin@, lines));
    }
    while pos < content.len()
        invariant
            pos <= content.len(),
            number <= pos,
            number == lines.len(),
            lines + split_lines(content@.skip(pos as int)) == split_lines(content@),
            record_views(records@) == records_of_lines(path@, origin@, lines),
        decreases content.len() - pos,
    {
        let ghost rest = content@.skip(pos as int);
        let mut end: usize = pos;
        while end < content.len() && content[end] != LF
            invariant
                pos <= end <= content.len(),
                forall|j: int| pos <= j < end ==> content@[j] != LF,
            decreases content.len() - end,
        {
            end = end + 1;
        }
        let terminated = end < content.len();
        let stop = if terminated && end > pos && content[end - 1] == CR {
            end - 1
        } else {
            end
        };
        let line = slice_subrange(content, pos, stop);
        let next = if terminated {
            end + 1
        } else {
            end
        };
        proof {
            assert forall|j: int| 0 <= j < end - pos implies rest[j] != LF by {
                assert(rest[j] == content@[pos + j]);
            }
            lemma_span_before(rest, LF, end - pos);
            if terminated {
                assert(rest.take(end - pos) =~= content@.subrange(pos as int, end as int));
                assert(line@ =~= without_cr(rest.take(end - pos)));
                assert(rest.skip(end - pos + 1) =~= content@.skip(next as int));
            } else {
                assert(line@ =~= rest);
                assert(content@.skip(next as int).len() == 0);
            }
            assert(split_lines(rest) =~= seq![line@] + split_lines(content@.skip(next as int)));
            assert(lines.push(line@) + split_lines(content@.skip(next as int)) =~= lines
                + split_lines(rest));
            assert(lines.push(line@).drop_last() =~= lines);
        }
        let ghost seen = record_views(records@);
        match decode(line) {
            Some(text) => {
                if !is_blank(text.as_str()) {
                    let record = Record {
                        source_path: String::from_str(path),
                        line_number: number,
                        text,
                        origin: origin.clone(),
                    };
                    records.push(record);
                    proof {
                        assert(record_views(records@) =~= seen.push(record@));
                    }
                }
            },
            None => {},
        }
        proof {
            lines = lines.push(line@);
        }
        number = number + 1;
        pos = next;
    }
    proof {
        assert(content@.skip(pos as int).len() == 0);
        assert(lines + split_lines(content@.skip(pos as int)) =~= lines);
    }
    records
}

// ---------------------------------------------------------------------------
// Laws
// ---------------------------------------------------------------------------

/// What the records of a sequence of lines are, line by line:
/// * every record belongs to the line whose position is its number, and
///   that line is UTF-8 and not blank;
/// * every line that is UTF-8 and not blank has its record;
/// * the records stand in the order of their lines.
pub proof fn lemma_records_of_lines(path: Seq<char>, origin: OriginView, lines: Seq<Seq<u8>>)
    ensures
        forall|k: int|
            0 <= k < records_of_lines(path, origin, lines).len() ==> {
                let record = #[trigger] records_of_lines(path, origin, lines)[k];
                &&& record.line_number < lines.len()
                &&& line_record(
                    path,
                    origin,
                    record.line_number,
                    lines[record.line_number as int],
                ) == Some(record)
            },
        forall|i: int|
            0 <= i < lines.len() && (#[trigger] line_record(path, origin, i as nat, lines[i]))
                is Some ==> records_of_lines(path, origin, lines).contains(
                line_record(path, origin, i as nat, lines[i])->Some_0,
            ),
        forall|j: int, k: int|
            0 <= j < k < records_of_lines(path, origin, lines).len() ==> (
            #[trigger] records_of_lines(path, origin, lines)[j]).line_number < (
            #[trigger] records_of_lines(path, origin, lines)[k]).line_number,
    decreases lines.len(),
{
    let records = records_of_lines(path, origin, lines);
    if lines.len() > 0 {
        let shorter = lines.drop_last();
        let before = records_of_lines(path, origin, shorter);
        let last = (lines.len() - 1) as nat;
        lemma_records_of_lines(path, origin, shorter);
        assert forall|k: int| 0 <= k < records.len() implies {
            let record = #[trigger] records[k];
            &&& record.line_number < lines.len()
            &&& line_record(path, origin, record.line_number, lines[record.line_number as int])
                == Some(record)
        } by {
            if k < before.len() {
                assert(records[k] == before[k]);
                assert(shorter[before[k].line_number as int] == lines[before[k].line_number as int]);
            }
        }
        assert forall|i: int|
            0 <= i < lines.len() && (#[trigger] line_record(path, origin, i as nat, lines[i]))
                is Some implies records.contains(
            line_record(path, origin, i as nat, lines[i])->Some_0,
        ) by {
            let record = line_record(path, origin, i as nat, lines[i])->Some_0;
            if i < last {
                assert(shorter[i] == lines[i]);
                assert(before.contains(record));
                let k = choose|k: int| 0 <= k < before.len() && before[k] == record;
                assert(records[k] == record);
            } else {
                assert(records[records.len() - 1] == record);
            }
        }
        assert forall|j: int, k: int| 0 <= j < k < records.len() implies (#[trigger] records[j]).line_number
            < (#[trigger] records[k]).line_number by {
            assert(records[j] == before[j]);
            if k < before.len() {
                assert(records[k] == before[k]);
            }
        }
    }
}

/// No line holds a line feed.
pub proof fn lemma_lines_hold_no_line_feed(content: Seq<u8>)
    ensures
        forall|i: int|
            0 <= i < split_lines(content).len() ==> no_line_feed(#[trigger] split_lines(content)[i]),
    decreases content.len(),
{
    if content.len() > 0 {
        let end = line_end(content);
        lemma_span_holds_no_stop(content, LF);
        if end < content.len() {
            let first = without_cr(content.take(end));
            let rest = split_lines(content.skip(end + 1));
            lemma_lines_hold_no_line_feed(content.skip(end + 1));
            assert forall|j: int| 0 <= j < first.len() implies first[j] != LF by {
                assert(first[j] == content[j]);
            }
            assert forall|i: int| 0 <= i < split_lines(content).len() implies no_line_feed(
                #[trigger] split_lines(content)[i],
            ) by {
                if i > 0 {
                    assert(split_lines(content)[i] == rest[i - 1]);
                }
            }
        }
    }
}

/// The text of a record is a single line.
pub proof fn lemma_records_are_single_lines(path: Seq<char>, origin: OriginView, content: Seq<u8>)
    ensures
        forall|k: int|
            0 <= k < extract(path, origin, content).len() ==> single_line(
                (#[trigger] extract(path, origin, content)[k]).text,
            ),
{
    let lines = split_lines(content);
    let records = extract(path, origin, content);
    lemma_records_of_lines(path, origin, lines);
    lemma_lines_hold_no_line_feed(content);
    assert forall|k: int| 0 <= k < records.len() implies single_line((#[trigger] records[k]).text) by {
        let line = lines[records[k].line_number as int];
        assert(line_record(path, origin, records[k].line_number, line) == Some(records[k]));
        lemma_decode_single_line(line);
    }
}

/// Content in which no line is UTF-8 with something other than whitespace
/// on it has no records. In particular, content whose lines are all blank
/// has none.
pub proof fn lemma_blank_content_has_no_records(
    path: Seq<char>,
    origin: OriginView,
    content: Seq<u8>,
)
    requires
        forall|i: int|
            0 <= i < split_lines(content).len() && valid_utf8(#[trigger] split_lines(content)[i])
                ==> blank(decode_utf8(split_lines(content)[i])),
    ensures
        extract(path, origin, content).len() == 0,
{
    let lines = split_lines(content);
    let records = extract(path, origin, content);
    lemma_records_of_lines(path, origin, lines);
    if records.len() > 0 {
        let record = records[0];
        assert(line_record(path, origin, record.line_number, lines[record.line_number as int])
            is Some);
    }
}

/// Lines that are not UTF-8 leave no record and do not disturb the others:
/// the records of a content are exactly the lines of it that are UTF-8 and
/// not blank, each decoded, each under the position it has among all lines,
/// in the order of the lines.
pub proof fn lemma_records_follow_lines(path: Seq<char>, origin: OriginView, content: Seq<u8>)
    ensures
        forall|k: int|
            0 <= k < extract(path, origin, content).len() ==> {
                let record = #[trigger] extract(path, origin, content)[k];
                let lines = split_lines(content);
                &&& record.line_number < lines.len()
                &&& valid_utf8(lines[record.line_number as int])
                &&& record.text == decode_utf8(lines[record.line_number as int])
                &&& record.wf()
                &&& record.source_path == path
                &&& record.origin == origin
            },
        forall|i: int|
            0 <= i < split_lines(content).len() && valid_utf8(#[trigger] split_lines(content)[i])
                && !blank(decode_utf8(split_lines(content)[i])) ==> extract(
                path,
                origin,
                content,
            ).contains(
                RecordView {
                    source_path: path,
                    line_number: i as nat,
                    text: decode_utf8(split_lines(content)[i]),
                    origin,
                },
            ),
        forall|j: int, k: int|
            0 <= j < k < extract(path, origin, content).len() ==> (#[trigger] extract(
                path,
                origin,
                content,
            )[j]).line_number < (#[trigger] extract(path, origin, content)[k]).line_number,
{
    let lines = split_lines(content);
    lemma_records_of_lines(path, origin, lines);
    assert forall|i: int|
        0 <= i < lines.len() && valid_utf8(#[trigger] lines[i]) && !blank(
            decode_utf8(lines[i]),
        ) implies extract(path, origin, content).contains(
        RecordView {
            source_path: path,
            line_number: i as nat,
            text: decode_utf8(lines[i]),
            origin,
        },
    ) by {
        assert(line_record(path, origin, i as nat, lines[i]) is Some);
    }
}

} // verus!
