//! Rows of the log: two fields in CSV, one line each.

use vstd::prelude::*;
use vstd::utf8::encode_utf8;

verus! {

/// The bytes that cannot stand in a field without quotes: comma, quote,
/// carriage return and line feed.
pub open spec fn is_special(b: u8) -> bool {
    b == 0x2c || b == 0x22 || b == 0x0d || b == 0x0a
}

/// Whether a field has to be written between quotes.
pub open spec fn needs_quotes(field: Seq<u8>) -> bool {
    exists|i: int| 0 <= i < field.len() && is_special(#[trigger] field[i])
}

/// A field with every quote written twice.
pub open spec fn doubled(field: Seq<u8>) -> Seq<u8>
    decreases field.len(),
{
    if field.len() == 0 {
        Seq::empty()
    } else if field[0] == 0x22 {
        seq![0x22u8, 0x22u8] + doubled(field.drop_first())
    } else {
        seq![field[0]] + doubled(field.drop_first())
    }
}

/// A field as it stands in a row.
pub open spec fn csv_field(field: Seq<u8>) -> Seq<u8> {
    if needs_quotes(field) {
        seq![0x22u8] + doubled(field) + seq![0x22u8]
    } else {
        field
    }
}

/// A row of two fields: the fields with a comma between them and a line
/// feed at the end.
pub open spec fn csv_record(first: Seq<u8>, second: Seq<u8>) -> Seq<u8> {
    csv_field(first) + seq![0x2cu8] + csv_field(second) + seq![0x0au8]
}

/// `csv::Writer::write_record` on a writer built by `csv::WriterBuilder`
/// without headers over an empty vector, then `into_inner`. The contract
/// claims what the writer's defaults give for a record of two fields: a
/// field is quoted if and only if it holds a comma, a quote, a carriage
/// return or a line feed, quotes inside it are doubled, the delimiter is a
/// comma and the terminator a line feed. Writing into a vector cannot fail
/// and a first record has no length to disagree with.
#[verifier::external_body]
fn record_bytes(first: &[u8], second: &[u8]) -> (row: Vec<u8>)
    ensures
        row@ == csv_record(first@, second@),
{
    let mut writer = csv::WriterBuilder::new().has_headers(false).from_writer(Vec::new());
    let _ = writer.write_record([first, second]);
    writer.into_inner().unwrap_or_default()
}

/// The row that records one answer: the image's path, then the answer's
/// text.
pub fn log_row(path: &str, response: &str) -> (row: Vec<u8>)
    ensures
        row@ == csv_record(encode_utf8(path@), encode_utf8(response@)),
{
    record_bytes(path.as_bytes(), response.as_bytes())
}

/// How many bytes at the start of `text` belong to a field without quotes:
/// those before the first comma, quote, carriage return or line feed.
pub open spec fn plain_len(text: Seq<u8>) -> nat
    decreases text.len(),
{
    if text.len() == 0 || is_special(text[0]) {
        0
    } else {
        1 + plain_len(text.drop_first())
    }
}

/// How many bytes at the start of `text` stand inside a quoted field: those
/// before the first quote that is not one of a pair.
pub open spec fn quoted_len(text: Seq<u8>) -> nat
    decreases text.len(),
{
    if text.len() == 0 {
        0
    } else if text[0] != 0x22 {
        1 + quoted_len(text.drop_first())
    } else if text.len() >= 2 && text[1] == 0x22 {
        2 + quoted_len(text.drop_first().drop_first())
    } else {
        0
    }
}

/// The inside of a quoted field with every pair of quotes read as one.
pub open spec fn undoubled(text: Seq<u8>) -> Seq<u8>
    decreases text.len(),
{
    if text.len() == 0 {
        Seq::empty()
    } else if text[0] == 0x22 && text.len() >= 2 && text[1] == 0x22 {
        seq![0x22u8] + undoubled(text.drop_first().drop_first())
    } else {
        seq![text[0]] + undoubled(text.drop_first())
    }
}

/// The field that `text` starts with, and how many bytes the field and the
/// delimiter or terminator behind it take.
pub open spec fn first_field(text: Seq<u8>) -> (Seq<u8>, nat) {
    if text.len() > 0 && text[0] == 0x22 {
        let inside = quoted_len(text.drop_first());
        (undoubled(text.subrange(1, 1 + inside as int)), inside + 3)
    } else {
        let inside = plain_len(text);
        (text.subrange(0, inside as int), inside + 1)
    }
}

/// The two fields of the row that `log` starts with, as a reader of CSV
/// takes them.
pub open spec fn fields_of(log: Seq<u8>) -> (Seq<u8>, Seq<u8>) {
    let (first, taken) = first_field(log);
    (first, first_field(log.subrange(taken as int, log.len() as int)).0)
}

/// How many bytes the row that `log` starts with takes.
pub open spec fn row_len(log: Seq<u8>) -> nat {
    let taken = first_field(log).1;
    taken + first_field(log.subrange(taken as int, log.len() as int)).1
}

/// The log that holds these rows, in this order, and nothing else.
pub open spec fn log_of(rows: Seq<(Seq<u8>, Seq<u8>)>) -> Seq<u8>
    decreases rows.len(),
{
    if rows.len() == 0 {
        Seq::empty()
    } else {
        csv_record(rows[0].0, rows[0].1) + log_of(rows.drop_first())
    }
}

/// The rows that a reader of CSV takes from a log, in the order in which
/// they stand.
pub open spec fn rows_of(log: Seq<u8>) -> Seq<(Seq<u8>, Seq<u8>)>
    decreases log.len(),
{
    if log.len() == 0 || row_len(log) > log.len() {
        Seq::empty()
    } else {
        seq![fields_of(log)] + rows_of(log.subrange(row_len(log) as int, log.len() as int))
    }
}

/// Reading pairs of quotes as one undoes the doubling.
proof fn lemma_undoubled(field: Seq<u8>)
    ensures
        undoubled(doubled(field)) == field,
    decreases field.len(),
{
    if field.len() > 0 {
        let rest = field.drop_first();
        lemma_undoubled(rest);
        let text = doubled(field);
        if field[0] == 0x22 {
            assert(text.drop_first().drop_first() =~= doubled(rest));
        } else {
            assert(text.drop_first() =~= doubled(rest));
        }
        assert(seq![field[0]] + rest =~= field);
    }
}

/// The inside of a quoted field ends at its closing quote.
proof fn lemma_quoted_len(field: Seq<u8>, behind: Seq<u8>)
    requires
        behind.len() == 0 || behind[0] != 0x22,
    ensures
        quoted_len(doubled(field) + seq![0x22u8] + behind) == doubled(field).len(),
    decreases field.len(),
{
    let text = doubled(field) + seq![0x22u8] + behind;
    if field.len() > 0 {
        let rest = field.drop_first();
        lemma_quoted_len(rest, behind);
        let then = doubled(rest) + seq![0x22u8] + behind;
        if field[0] == 0x22 {
            assert(text.drop_first().drop_first() =~= then);
        } else {
            assert(text.drop_first() =~= then);
        }
    }
}

/// A field without quotes ends at the delimiter or terminator behind it.
proof fn lemma_plain_len(field: Seq<u8>, behind: Seq<u8>)
    requires
        !needs_quotes(field),
        behind.len() > 0 && is_special(behind[0]),
    ensures
        plain_len(field + behind) == field.len(),
    decreases field.len(),
{
    let text = field + behind;
    if field.len() > 0 {
        let rest = field.drop_first();
        assert(!is_special(field[0]));
        assert forall|i: int| 0 <= i < rest.len() implies !is_special(#[trigger] rest[i]) by {
            assert(rest[i] == field[i + 1]);
        }
        lemma_plain_len(rest, behind);
        assert(text.drop_first() =~= rest + behind);
    }
}

/// A field is read back from where it stands in a row, whatever follows
/// its delimiter or terminator.
proof fn lemma_first_field(field: Seq<u8>, mark: u8, behind: Seq<u8>)
    requires
        mark == 0x2c || mark == 0x0a,
    ensures
        first_field(csv_field(field) + seq![mark] + behind) == (
            field,
            (csv_field(field).len() + 1) as nat,
        ),
{
    let text = csv_field(field) + seq![mark] + behind;
    if needs_quotes(field) {
        let tail = seq![mark] + behind;
        let inside = doubled(field) + seq![0x22u8] + tail;
        assert(text.drop_first() =~= inside);
        lemma_quoted_len(field, tail);
        assert(text.subrange(1, 1 + doubled(field).len() as int) =~= doubled(field));
        lemma_undoubled(field);
    } else {
        let tail = seq![mark] + behind;
        assert(text =~= field + tail);
        lemma_plain_len(field, tail);
        if field.len() > 0 {
            assert(!is_special(field[0]));
        }
        assert(text.subrange(0, field.len() as int) =~= field);
    }
}

/// A row loses nothing: whatever two fields are written, and whatever is
/// appended behind the row, a reader gets the same two fields back and
/// goes on behind the row.
pub proof fn lemma_row_reads_back(first: Seq<u8>, second: Seq<u8>, behind: Seq<u8>)
    ensures
        fields_of(csv_record(first, second) + behind) == (first, second),
        row_len(csv_record(first, second) + behind) == csv_record(first, second).len(),
{
    let log = csv_record(first, second) + behind;
    let rest = csv_field(second) + seq![0x0au8] + behind;
    assert(log =~= csv_field(first) + seq![0x2cu8] + rest);
    lemma_first_field(first, 0x2c, rest);
    let taken = csv_field(first).len() as int + 1;
    assert(log.subrange(taken, log.len() as int) =~= rest);
    lemma_first_field(second, 0x0a, behind);
}

/// A log is read back row by row: a reader of the log that holds some
/// rows gets these rows, each with its two fields, in the order in which
/// they were written.
pub proof fn lemma_log_reads_back(rows: Seq<(Seq<u8>, Seq<u8>)>)
    ensures
        rows_of(log_of(rows)) == rows,
    decreases rows.len(),
{
    if rows.len() > 0 {
        let row = csv_record(rows[0].0, rows[0].1);
        let behind = log_of(rows.drop_first());
        let log = log_of(rows);
        lemma_row_reads_back(rows[0].0, rows[0].1, behind);
        lemma_log_reads_back(rows.drop_first());
        assert(log.subrange(row.len() as int, log.len() as int) =~= behind);
        assert(seq![rows[0]] + rows.drop_first() =~= rows);
    }
}

/// Appending keeps what was there. A log to which a second run appends its
/// rows holds the rows of the first run, then those of the second: no row
/// is written over and none is left out, even where both runs wrote the
/// same rows.
pub proof fn lemma_runs_append(earlier: Seq<(Seq<u8>, Seq<u8>)>, later: Seq<(Seq<u8>, Seq<u8>)>)
    ensures
        log_of(earlier) + log_of(later) == log_of(earlier + later),
        rows_of(log_of(earlier) + log_of(later)) == earlier + later,
    decreases earlier.len(),
{
    if earlier.len() == 0 {
        assert(earlier + later =~= later);
        assert(log_of(earlier) + log_of(later) =~= log_of(later));
    } else {
        lemma_runs_append(earlier.drop_first(), later);
        assert((earlier + later).drop_first() =~= earlier.drop_first() + later);
        assert(log_of(earlier) + log_of(later) =~= log_of(earlier + later));
    }
    lemma_log_reads_back(earlier + later);
}

} // verus!
