//! CSV export: header row plus one line per selected row, with standard
//! comma-separated quoting.  The text is built here with an exact contract;
//! writing it to a file belongs to the process around the library.

use vstd::prelude::*;
use vstd::string::StringExecFns;
use crate::store::{seg_views, log_views, GroupChatSegment, LogEntry, SegView, LogView};
use crate::text::{dec_str_int, i32_to_dec, i64_to_dec};

verus! {

/// Whether a CSV field must be quoted: it holds a comma, a quote, or a line
/// break.
pub open spec fn needs_quoting(s: Seq<char>) -> bool {
    exists|i: int|
        0 <= i < s.len() && (s[i] == ',' || s[i] == '"' || s[i] == '\n' || s[i] == '\r')
}

/// A field's characters with every quote doubled.
pub open spec fn escape_quotes(s: Seq<char>) -> Seq<char>
    decreases s.len(),
{
    if s.len() == 0 {
        Seq::empty()
    } else {
        escape_quotes(s.drop_last()) + (if s.last() == '"' {
            seq!['"', '"']
        } else {
            seq![s.last()]
        })
    }
}

/// A field as it appears in a CSV line: quoted and escaped when needed,
/// verbatim otherwise.
pub open spec fn csv_field(s: Seq<char>) -> Seq<char> {
    if needs_quoting(s) {
        seq!['"'] + escape_quotes(s) + seq!['"']
    } else {
        s
    }
}

/// The fields of one row, comma-separated.
pub open spec fn csv_cells(fields: Seq<Seq<char>>) -> Seq<char>
    decreases fields.len(),
{
    if fields.len() == 0 {
        Seq::empty()
    } else if fields.len() == 1 {
        csv_field(fields[0])
    } else {
        csv_cells(fields.drop_last()) + seq![','] + csv_field(fields.last())
    }
}

/// One CSV line: the fields, then a line break.
pub open spec fn csv_line(fields: Seq<Seq<char>>) -> Seq<char> {
    csv_cells(fields) + seq!['\n']
}

/// The columns of one exported segment row.
pub open spec fn segment_fields(s: SegView) -> Seq<Seq<char>> {
    seq![
        dec_str_int(s.message_id),
        s.time,
        dec_str_int(s.sender_id),
        s.sender_name,
        s.seg_type,
        s.content,
        s.interpret,
    ]
}

/// The columns of one exported log row.
pub open spec fn log_fields(e: LogView) -> Seq<Seq<char>> {
    seq![e.time, e.level, e.content]
}

/// The lines of the exported segment rows, in order.
pub open spec fn segment_lines(rows: Seq<SegView>) -> Seq<char>
    decreases rows.len(),
{
    if rows.len() == 0 {
        Seq::empty()
    } else {
        segment_lines(rows.drop_last()) + csv_line(segment_fields(rows.last()))
    }
}

/// The lines of the exported log rows, in order.
pub open spec fn log_lines(rows: Seq<LogView>) -> Seq<char>
    decreases rows.len(),
{
    if rows.len() == 0 {
        Seq::empty()
    } else {
        log_lines(rows.drop_last()) + csv_line(log_fields(rows.last()))
    }
}

/// A full history export: the header row, then one line per row.
pub open spec fn history_csv(rows: Seq<SegView>) -> Seq<char> {
    "message_id,time,sender_id,sender_name,type,content,interpret\n"@ + segment_lines(rows)
}

/// A full log export: the header row, then one line per row.
pub open spec fn log_csv(rows: Seq<LogView>) -> Seq<char> {
    "time,level,content\n"@ + log_lines(rows)
}

/// An export of no rows is the header row alone.
pub proof fn lemma_empty_export_is_header_only()
    ensures
        history_csv(Seq::empty()) == "message_id,time,sender_id,sender_name,type,content,interpret\n"@,
        log_csv(Seq::empty()) == "time,level,content\n"@,
{
    assert(history_csv(Seq::empty())
        =~= "message_id,time,sender_id,sender_name,type,content,interpret\n"@);
    assert(log_csv(Seq::empty()) =~= "time,level,content\n"@);
}

fn push_csv_field(out: &mut String, f: &str)
    ensures
        final(out)@ == old(out)@ + csv_field(f@),
{
    let n = f.unicode_len();
    let mut quote = false;
    let mut i: usize = 0;
    while i < n
        invariant
            n == f@.len(),
            i <= n,
            quote == exists|j: int|
                0 <= j < i && (f@[j] == ',' || f@[j] == '"' || f@[j] == '\n' || f@[j] == '\r'),
        decreases n - i,
    {
        let c = f.get_char(i);
        if c == ',' || c == '"' || c == '\n' || c == '\r' {
            quote = true;
        }
        i = i + 1;
    }
    proof {
        assert(quote == needs_quoting(f@));
    }
    if !quote {
        out.append(f);
        return ;
    }
    out.push('"');
    let ghost mid = out@;
    proof {
        assert(escape_quotes(f@.take(0)) =~= Seq::<char>::empty());
        assert(out@ =~= mid + escape_quotes(f@.take(0)));
    }
    let mut i: usize = 0;
    while i < n
        invariant
            n == f@.len(),
            i <= n,
            out@ =~= mid + escape_quotes(f@.take(i as int)),
        decreases n - i,
    {
        proof {
            assert(f@.take(i + 1).drop_last() =~= f@.take(i as int));
            assert(f@.take(i + 1).last() == f@[i as int]);
        }
        let c = f.get_char(i);
        if c == '"' {
            out.push('"');
            out.push('"');
        } else {
            out.push(c);
        }
        i = i + 1;
    }
    out.push('"');
    proof {
        assert(f@.take(n as int) =~= f@);
        assert(out@ =~= old(out)@ + (seq!['"'] + escape_quotes(f@) + seq!['"']));
    }
}

/// Builds the export text for segment rows: header, then one line per row
/// with the columns of the persisted layout.
#[verifier::rlimit(60)]
pub fn history_csv_text(rows: &Vec<GroupChatSegment>) -> (r: String)
    ensures
        r@ == history_csv(seg_views(rows@)),
{
    let ghost rv = seg_views(rows@);
    let mut out = String::from_str("message_id,time,sender_id,sender_name,type,content,interpret\n");
    proof {
        assert(segment_lines(rv.take(0)) =~= Seq::<char>::empty());
        assert(out@ =~= history_csv(rv.take(0)));
    }
    let n = rows.len();
    let mut i: usize = 0;
    while i < n
        invariant
            n == rows@.len(),
            i <= n,
            rv == seg_views(rows@),
            out@ =~= history_csv(rv.take(i as int)),
        decreases n - i,
    {
        proof {
            assert(rv[i as int] == rows@[i as int]@);
            assert(rv.take(i + 1).drop_last() =~= rv.take(i as int));
            assert(rv.take(i + 1).last() == rv[i as int]);
        }
        let ghost line_start = out@;
        let ghost fs = segment_fields(rv[i as int]);
        let row = &rows[i];
        let mid = i32_to_dec(row.message_id);
        push_csv_field(&mut out, mid.as_str());
        proof {
            assert(fs.take(1) =~= seq![fs[0]]);
            assert(csv_cells(fs.take(1)) =~= csv_field(fs[0]));
            assert(out@ =~= line_start + csv_cells(fs.take(1)));
        }
        out.push(',');
        push_csv_field(&mut out, row.time.as_str());
        proof {
            assert(fs.take(2).drop_last() =~= fs.take(1));
            assert(out@ =~= line_start + csv_cells(fs.take(2)));
        }
        out.push(',');
        let sid = i64_to_dec(row.sender_id);
        push_csv_field(&mut out, sid.as_str());
        proof {
            assert(fs.take(3).drop_last() =~= fs.take(2));
            assert(out@ =~= line_start + csv_cells(fs.take(3)));
        }
        out.push(',');
        push_csv_field(&mut out, row.sender_name.as_str());
        proof {
            assert(fs.take(4).drop_last() =~= fs.take(3));
            assert(out@ =~= line_start + csv_cells(fs.take(4)));
        }
        out.push(',');
        push_csv_field(&mut out, row.seg_type.as_str());
        proof {
            assert(fs.take(5).drop_last() =~= fs.take(4));
            assert(out@ =~= line_start + csv_cells(fs.take(5)));
        }
        out.push(',');
        push_csv_field(&mut out, row.content.as_str());
        proof {
            assert(fs.take(6).drop_last() =~= fs.take(5));
            assert(out@ =~= line_start + csv_cells(fs.take(6)));
        }
        out.push(',');
        push_csv_field(&mut out, row.interpret.as_str());
        proof {
            assert(fs.take(7).drop_last() =~= fs.take(6));
            assert(fs.take(7) =~= fs);
            assert(out@ =~= line_start + csv_cells(fs));
        }
        out.push('\n');
        proof {
            assert(out@ =~= line_start + csv_line(fs));
            assert(out@ =~= history_csv(rv.take(i + 1)));
        }
        i = i + 1;
    }
    proof {
        assert(rv.take(n as int) =~= rv);
    }
    out
}

/// Builds the export text for log rows: header, then one line per row.
pub fn log_csv_text(rows: &Vec<LogEntry>) -> (r: String)
    ensures
        r@ == log_csv(log_views(rows@)),
{
    let ghost rv = log_views(rows@);
    let mut out = String::from_str("time,level,content\n");
    proof {
        assert(log_lines(rv.take(0)) =~= Seq::<char>::empty());
        assert(out@ =~= log_csv(rv.take(0)));
    }
    let n = rows.len();
    let mut i: usize = 0;
    while i < n
        invariant
            n == rows@.len(),
            i <= n,
            rv == log_views(rows@),
            out@ =~= log_csv(rv.take(i as int)),
        decreases n - i,
    {
        proof {
            assert(rv[i as int] == rows@[i as int]@);
            assert(rv.take(i + 1).drop_last() =~= rv.take(i as int));
            assert(rv.take(i + 1).last() == rv[i as int]);
        }
        let ghost line_start = out@;
        let ghost fs = log_fields(rv[i as int]);
        let row = &rows[i];
        push_csv_field(&mut out, row.time.as_str());
        proof {
            assert(fs.take(1) =~= seq![fs[0]]);
            assert(csv_cells(fs.take(1)) =~= csv_field(fs[0]));
            assert(out@ =~= line_start + csv_cells(fs.take(1)));
        }
        out.push(',');
        push_csv_field(&mut out, row.level.as_str());
        proof {
            assert(fs.take(2).drop_last() =~= fs.take(1));
            assert(out@ =~= line_start + csv_cells(fs.take(2)));
        }
        out.push(',');
        push_csv_field(&mut out, row.content.as_str());
        proof {
            assert(fs.take(3).drop_last() =~= fs.take(2));
            assert(fs.take(3) =~= fs);
            assert(out@ =~= line_start + csv_cells(fs));
        }
        out.push('\n');
        proof {
            assert(out@ =~= line_start + csv_line(fs));
            assert(out@ =~= log_csv(rv.take(i + 1)));
        }
        i = i + 1;
    }
    proof {
        assert(rv.take(n as int) =~= rv);
    }
    out
}

} // verus!
