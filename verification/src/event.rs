//! One line for each thing that a node reports.
use crate::json::{quote, quoted};
use crate::notice::{Note, Report};
use crate::text::{decimal, push_decimal};
use vstd::prelude::*;

verus! {

/// Text between quotes, as a node writes it: of the control characters only
/// the line feed has a name.
pub fn json_string(raw: &str) -> (text: String)
    ensures
        text@ == quoted(raw@, false),
{
    quote(raw, false)
}

/// The fields of a record, each behind a comma.
pub open spec fn field_list(fields: Seq<(Seq<char>, Seq<char>)>) -> Seq<char>
    decreases fields.len(),
{
    if fields.len() == 0 {
        Seq::empty()
    } else {
        field_list(fields.drop_last()) + ","@ + quoted(fields.last().0, false) + ":"@ + quoted(
            fields.last().1,
            false,
        )
    }
}

/// A note as one JSON record.
pub open spec fn record(label: Seq<char>, note: Note, millis: nat) -> Seq<char> {
    "{\"ts_unix_ms\":"@ + decimal(millis) + ",\"node\":"@ + quoted(label, false) + ",\"event\":"@
        + quoted(note.kind, false) + field_list(note.fields) + "}"@
}

/// A note as prose, with `timing` where a span of time belongs.
pub open spec fn sentence(label: Seq<char>, note: Note, timing: Seq<char>) -> Seq<char> {
    "["@ + label + "] "@ + (note.before + timing + note.after)
}

/// The line to print for a report: prose, or one JSON record. Readable by a
/// person and parseable by a script from the same run.
pub fn event_line(label: &str, json: bool, report: &Report, timing: &str, millis: u128) -> (line:
    String)
    ensures
        line@ == if json {
            record(label@, report@, millis as nat)
        } else {
            sentence(label@, report@, timing@)
        },
{
    if !json {
        let mut line = "[".to_owned();
        line.push_str(label);
        line.push_str("] ");
        line.push_str(&report.prose(timing));
        return line;
    }
    let mut line = "{\"ts_unix_ms\":".to_owned();
    push_decimal(&mut line, millis);
    line.push_str(",\"node\":");
    line.push_str(&json_string(label));
    line.push_str(",\"event\":");
    line.push_str(&json_string(&report.kind));
    let ghost head = line@;
    let ghost fields = report@.fields;
    let mut at: usize = 0;
    assert(fields.take(0) =~= Seq::<(Seq<char>, Seq<char>)>::empty());
    assert(line@ =~= head + field_list(fields.take(0)));
    while at < report.fields.len()
        invariant
            at <= report.fields@.len(),
            fields == report@.fields,
            line@ == head + field_list(fields.take(at as int)),
        decreases report.fields@.len() - at,
    {
        line.push_str(",");
        line.push_str(&json_string(&report.fields[at].0));
        line.push_str(":");
        line.push_str(&json_string(&report.fields[at].1));
        proof {
            let longer = fields.take(at + 1);
            assert(longer.drop_last() =~= fields.take(at as int));
            assert(longer.last() == (
                report.fields@[at as int].0@,
                report.fields@[at as int].1@,
            ));
        }
        assert(line@ =~= head + field_list(fields.take(at + 1)));
        at += 1;
    }
    assert(fields.take(at as int) =~= fields);
    line.push_str("}");
    line
}

/// A record holds every field of its note in its order, behind the time, the node
/// and the kind, each name and value between quotes; and prose holds what the note
/// says with the span of time in its place.
pub proof fn a_record_holds_every_field(
    label: Seq<char>,
    note: Note,
    last: (Seq<char>, Seq<char>),
    millis: nat,
    timing: Seq<char>,
)
    ensures
        field_list(Seq::empty()).len() == 0,
        field_list(note.fields.push(last)) == field_list(note.fields) + ","@ + quoted(last.0, false)
            + ":"@ + quoted(last.1, false),
        record(label, note, millis) == "{\"ts_unix_ms\":"@ + decimal(millis) + ",\"node\":"@
            + quoted(label, false) + ",\"event\":"@ + quoted(note.kind, false) + field_list(
            note.fields,
        ) + "}"@,
        sentence(label, note, timing) == "["@ + label + "] "@ + note.before + timing + note.after,
{
    assert(note.fields.push(last).drop_last() =~= note.fields);
    assert(sentence(label, note, timing) =~= "["@ + label + "] "@ + note.before + timing
        + note.after);
}

} // verus!
