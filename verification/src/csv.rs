//! The CSV export of the queue: one row for every saved link, every field
//! quoted.

use vstd::prelude::*;
use crate::item::Item;
use crate::text::{push_char, push_str, seq_join, join};

verus! {

/// A text with each `"` doubled.
pub open spec fn csv_escape(s: Seq<char>) -> Seq<char>
    decreases s.len(),
{
    if s.len() == 0 {
        Seq::empty()
    } else {
        let c = s.last();
        csv_escape(s.drop_last()) + if c == '"' { seq!['"', '"'] } else { seq![c] }
    }
}

/// A text as one quoted CSV field.
pub open spec fn csv_field(s: Seq<char>) -> Seq<char> {
    seq!['"'] + csv_escape(s) + seq!['"']
}

pub const CSV_HEADER: &'static str = "title,url,tags,status,priority,saved_at\n";
pub const CSV_TAG_SEPARATOR: &'static str = "; ";

/// The row of one saved link: title, link, tags joined by "; ", status,
/// priority and saved date, each quoted, separated by commas, ended by a
/// line break.
pub open spec fn csv_row(item: Item) -> Seq<char> {
    csv_field(item.title@) + seq![','] + csv_field(item.url@) + seq![',']
        + csv_field(seq_join(item.tags.deep_view(), CSV_TAG_SEPARATOR@)) + seq![',']
        + csv_field(item.status@) + seq![','] + csv_field(item.priority@) + seq![',']
        + csv_field(item.saved_at@) + seq!['\n']
}

/// The rows of the links, in order.
pub open spec fn csv_rows(items: Seq<Item>) -> Seq<char>
    decreases items.len(),
{
    if items.len() == 0 {
        Seq::empty()
    } else {
        csv_rows(items.drop_last()) + csv_row(items.last())
    }
}

/// The whole export: the header line, then one row per link.
pub open spec fn csv_document(items: Seq<Item>) -> Seq<char> {
    CSV_HEADER@ + csv_rows(items)
}

/// Appends `s` as one quoted CSV field.
pub fn push_csv_field(out: &mut String, s: &str)
    ensures
        final(out)@ == old(out)@ + csv_field(s@),
{
    broadcast use vstd::string::group_string_axioms;
    push_char(out, '"');
    let ghost start = out@;
    let ghost all = s@;
    for c in it: s.chars()
        invariant
            it.seq() == all,
            out@ == start + csv_escape(all.take(it.index() as int)),
    {
        if c == '"' {
            push_char(out, '"');
            push_char(out, '"');
        } else {
            push_char(out, c);
        }
        assert(all.take(it.index() + 1).drop_last() == all.take(it.index() as int));
    }
    assert(all.take(all.len() as int) == all);
    push_char(out, '"');
}

fn push_csv_row(out: &mut String, item: &Item)
    ensures
        final(out)@ == old(out)@ + csv_row(*item),
{
    push_csv_field(out, item.title.as_str());
    push_char(out, ',');
    push_csv_field(out, item.url.as_str());
    push_char(out, ',');
    let tags = join(&item.tags, CSV_TAG_SEPARATOR);
    push_csv_field(out, tags.as_str());
    push_char(out, ',');
    push_csv_field(out, item.status.as_str());
    push_char(out, ',');
    push_csv_field(out, item.priority.as_str());
    push_char(out, ',');
    push_csv_field(out, item.saved_at.as_str());
    push_char(out, '\n');
}

/// The CSV export of the given links: a header line, then one row for
/// every link, in the order given.
pub fn export_csv(items: &Vec<Item>) -> (csv: String)
    ensures
        csv@ == csv_document(items@),
{
    let mut out = String::new();
    push_str(&mut out, CSV_HEADER);
    let mut i: usize = 0;
    while i < items.len()
        invariant
            i <= items.len(),
            out@ == CSV_HEADER@ + csv_rows(items@.take(i as int)),
        decreases items.len() - i,
    {
        push_csv_row(&mut out, &items[i]);
        assert(items@.take(i + 1).drop_last() == items@.take(i as int));
        i = i + 1;
    }
    assert(items@.take(items.len() as int) == items@);
    out
}

/// Reads a field's escaped content back: each `""` stands for one `"`.
pub open spec fn csv_unescape(t: Seq<char>) -> Seq<char>
    decreases t.len(),
{
    if t.len() == 0 {
        Seq::empty()
    } else if t.len() >= 2 && t[0] == '"' && t[1] == '"' {
        seq!['"'] + csv_unescape(t.skip(2))
    } else {
        seq![t[0]] + csv_unescape(t.skip(1))
    }
}

/// What a quoted field holds: the text between its outer quotes, read back.
pub open spec fn csv_field_value(f: Seq<char>) -> Seq<char> {
    csv_unescape(f.subrange(1, f.len() - 1))
}

proof fn lemma_csv_escape_first(s: Seq<char>)
    requires
        s.len() > 0,
    ensures
        csv_escape(s) == (if s[0] == '"' { seq!['"', '"'] } else { seq![s[0]] }) + csv_escape(s.drop_first()),
    decreases s.len(),
{
    if s.len() == 1 {
        assert(s.drop_last() =~= Seq::<char>::empty());
        assert(s.drop_first() =~= Seq::<char>::empty());
        assert(s.last() == s[0]);
        assert(csv_escape(s.drop_last()) == Seq::<char>::empty());
        assert(csv_escape(s.drop_first()) == Seq::<char>::empty());
    } else {
        lemma_csv_escape_first(s.drop_last());
        assert(s.drop_last().drop_first() =~= s.drop_first().drop_last());
        assert(s.drop_first().last() == s.last());
        assert(s.drop_last()[0] == s[0]);
        let c = s.last();
        let tail = if c == '"' { seq!['"', '"'] } else { seq![c] };
        assert(csv_escape(s.drop_first()) == csv_escape(s.drop_first().drop_last()) + tail);
        let head = if s[0] == '"' { seq!['"', '"'] } else { seq![s[0]] };
        assert(csv_escape(s) =~= head + csv_escape(s.drop_first()));
    }
}

proof fn lemma_csv_escape_round_trip(s: Seq<char>)
    ensures
        csv_unescape(csv_escape(s)) == s,
    decreases s.len(),
{
    if s.len() > 0 {
        lemma_csv_escape_first(s);
        lemma_csv_escape_round_trip(s.drop_first());
        let rest = csv_escape(s.drop_first());
        if s[0] == '"' {
            let t = seq!['"', '"'] + rest;
            assert(t.skip(2) =~= rest);
        } else {
            let t = seq![s[0]] + rest;
            assert(t.skip(1) =~= rest);
        }
        assert(seq![s[0]] + s.drop_first() =~= s);
    }
}

/// Quoting loses nothing: every exported field reads back as the text it
/// was made from, whatever quotes, commas or line breaks the text holds.
pub proof fn lemma_csv_field_round_trip(s: Seq<char>)
    ensures
        csv_field_value(csv_field(s)) == s,
        csv_field(s)[0] == '"',
        csv_field(s).last() == '"',
{
    lemma_csv_escape_round_trip(s);
    let f = csv_field(s);
    assert(f.subrange(1, f.len() - 1) =~= csv_escape(s));
}

/// A CSV reader's view of a quoted field, from just after its opening
/// quote: the field's text, with each `""` read as `"`, and how many
/// characters it took up to and including the closing quote.
pub open spec fn read_quoted_body(t: Seq<char>) -> Option<(Seq<char>, int)>
    decreases t.len(),
{
    if t.len() == 0 {
        None
    } else if t[0] == '"' {
        if t.len() >= 2 && t[1] == '"' {
            match read_quoted_body(t.skip(2)) {
                Some(r) => Some((seq!['"'] + r.0, r.1 + 2)),
                None => None,
            }
        } else {
            Some((Seq::empty(), 1))
        }
    } else {
        match read_quoted_body(t.skip(1)) {
            Some(r) => Some((seq![t[0]] + r.0, r.1 + 1)),
            None => None,
        }
    }
}

/// A CSV reader's view of one record of quoted fields separated by commas
/// and ended by a line break: the fields, and how many characters the
/// record took.
pub open spec fn read_record(t: Seq<char>) -> Option<(Seq<Seq<char>>, int)>
    decreases t.len(),
{
    if t.len() == 0 || t[0] != '"' {
        None
    } else {
        match read_quoted_body(t.skip(1)) {
            Some(r) => {
                let after = 1 + r.1;
                if 0 <= r.1 && after < t.len() && t[after] == '\n' {
                    Some((seq![r.0], after + 1))
                } else if 0 <= r.1 && after < t.len() && t[after] == ',' {
                    match read_record(t.skip(after + 1)) {
                        Some(q) => Some((seq![r.0] + q.0, after + 1 + q.1)),
                        None => None,
                    }
                } else {
                    None
                }
            },
            None => None,
        }
    }
}

/// A CSV reader's view of a sequence of records.
pub open spec fn read_records(t: Seq<char>) -> Option<Seq<Seq<Seq<char>>>>
    decreases t.len(),
{
    if t.len() == 0 {
        Some(Seq::empty())
    } else {
        match read_record(t) {
            Some(r) => if 0 < r.1 <= t.len() {
                match read_records(t.skip(r.1)) {
                    Some(rs) => Some(seq![r.0] + rs),
                    None => None,
                }
            } else {
                None
            },
            None => None,
        }
    }
}

/// The fields a saved link is exported with, in column order.
pub open spec fn item_fields(item: Item) -> Seq<Seq<char>> {
    seq![
        item.title@,
        item.url@,
        seq_join(item.tags.deep_view(), CSV_TAG_SEPARATOR@),
        item.status@,
        item.priority@,
        item.saved_at@,
    ]
}

/// A record of quoted fields: commas between them, a line break after.
pub open spec fn encode_record(fields: Seq<Seq<char>>) -> Seq<char>
    decreases fields.len(),
{
    if fields.len() <= 1 {
        csv_field(fields[0]) + seq!['\n']
    } else {
        csv_field(fields[0]) + seq![','] + encode_record(fields.drop_first())
    }
}

proof fn lemma_read_quoted_body(s: Seq<char>, rest: Seq<char>)
    requires
        rest.len() == 0 || rest[0] != '"',
    ensures
        read_quoted_body(csv_escape(s) + seq!['"'] + rest) == Some((s, csv_escape(s).len() as int + 1)),
    decreases s.len(),
{
    let t = csv_escape(s) + seq!['"'] + rest;
    if s.len() == 0 {
        assert(csv_escape(s) == Seq::<char>::empty());
        assert(t =~= seq!['"'] + rest);
        if rest.len() > 0 {
            assert(t[1] == rest[0]);
        }
    } else {
        lemma_csv_escape_first(s);
        lemma_read_quoted_body(s.drop_first(), rest);
        let x = csv_escape(s.drop_first()) + seq!['"'] + rest;
        if s[0] == '"' {
            assert(t =~= seq!['"', '"'] + x);
            assert(t.skip(2) =~= x);
        } else {
            assert(t =~= seq![s[0]] + x);
            assert(t.skip(1) =~= x);
        }
        assert(seq![s[0]] + s.drop_first() =~= s);
    }
}

proof fn lemma_read_record(fields: Seq<Seq<char>>, rest: Seq<char>)
    requires
        fields.len() > 0,
    ensures
        read_record(encode_record(fields) + rest) == Some((fields, encode_record(fields).len() as int)),
    decreases fields.len(),
{
    let s = fields[0];
    let e = csv_escape(s);
    let t = encode_record(fields) + rest;
    if fields.len() == 1 {
        let tail = seq!['\n'] + rest;
        assert(t =~= seq!['"'] + (e + seq!['"'] + tail));
        assert(t.skip(1) =~= e + seq!['"'] + tail);
        lemma_read_quoted_body(s, tail);
        assert(t[e.len() as int + 2] == '\n');
        assert(seq![s] =~= fields);
    } else {
        let more = encode_record(fields.drop_first()) + rest;
        let tail = seq![','] + more;
        assert(t =~= seq!['"'] + (e + seq!['"'] + tail));
        assert(t.skip(1) =~= e + seq!['"'] + tail);
        lemma_read_quoted_body(s, tail);
        assert(t[e.len() as int + 2] == ',');
        assert(t.skip(e.len() as int + 3) =~= more);
        lemma_read_record(fields.drop_first(), rest);
        assert(seq![s] + fields.drop_first() =~= fields);
    }
}

proof fn lemma_row_is_record(item: Item)
    ensures
        csv_row(item) == encode_record(item_fields(item)),
{
    let f = item_fields(item);
    let f1 = f.drop_first();
    let f2 = f1.drop_first();
    let f3 = f2.drop_first();
    let f4 = f3.drop_first();
    let f5 = f4.drop_first();
    assert(f5.len() == 1);
    assert(encode_record(f5) == csv_field(f5[0]) + seq!['\n']);
    assert(encode_record(f4) == csv_field(f4[0]) + seq![','] + encode_record(f5));
    assert(encode_record(f3) == csv_field(f3[0]) + seq![','] + encode_record(f4));
    assert(encode_record(f2) == csv_field(f2[0]) + seq![','] + encode_record(f3));
    assert(encode_record(f1) == csv_field(f1[0]) + seq![','] + encode_record(f2));
    assert(encode_record(f) == csv_field(f[0]) + seq![','] + encode_record(f1));
    assert(csv_row(item) =~= encode_record(f));
}

proof fn lemma_csv_rows_first(items: Seq<Item>)
    requires
        items.len() > 0,
    ensures
        csv_rows(items) == csv_row(items[0]) + csv_rows(items.drop_first()),
    decreases items.len(),
{
    if items.len() == 1 {
        assert(items.drop_last() =~= Seq::<Item>::empty());
        assert(items.drop_first() =~= Seq::<Item>::empty());
        assert(items.last() == items[0]);
        assert(csv_rows(items.drop_last()) == Seq::<char>::empty());
        assert(csv_rows(items.drop_first()) == Seq::<char>::empty());
        assert(csv_rows(items) =~= csv_row(items[0]));
    } else {
        lemma_csv_rows_first(items.drop_last());
        assert(items.drop_last().drop_first() =~= items.drop_first().drop_last());
        assert(items.drop_first().last() == items.last());
        assert(items.drop_last()[0] == items[0]);
        assert(csv_rows(items.drop_first()) == csv_rows(items.drop_first().drop_last()) + csv_row(items.drop_first().last()));
        assert(csv_rows(items) =~= csv_row(items[0]) + csv_rows(items.drop_first()));
    }
}

/// The records of the links, in order: each link's exported fields.
pub open spec fn records_of(items: Seq<Item>) -> Seq<Seq<Seq<char>>>
    decreases items.len(),
{
    if items.len() == 0 {
        Seq::empty()
    } else {
        seq![item_fields(items[0])] + records_of(items.drop_first())
    }
}

proof fn lemma_encode_record_nonempty(fields: Seq<Seq<char>>)
    ensures
        encode_record(fields).len() > 0,
    decreases fields.len(),
{
    if fields.len() > 1 {
        lemma_encode_record_nonempty(fields.drop_first());
    }
}

/// The export holds one record for every saved link, in order: after the
/// header line, a CSV reader reads back exactly one record per link, made
/// of the link's title, address, tags joined by "; ", status, priority and
/// saved date, whatever quotes, commas or line breaks they contain.
pub proof fn lemma_export_reads_back(items: Seq<Item>)
    ensures
        csv_document(items) == CSV_HEADER@ + csv_rows(items),
        read_records(csv_rows(items)) == Some(records_of(items)),
        records_of(items).len() == items.len(),
    decreases items.len(),
{
    if items.len() > 0 {
        lemma_csv_rows_first(items);
        lemma_row_is_record(items[0]);
        let fields = item_fields(items[0]);
        let rest = csv_rows(items.drop_first());
        let t = csv_rows(items);
        assert(t == encode_record(fields) + rest);
        lemma_read_record(fields, rest);
        lemma_encode_record_nonempty(fields);
        let n = encode_record(fields).len() as int;
        assert(read_record(t) == Some((fields, n)));
        assert(0 < n <= t.len());
        assert(t.skip(n) =~= rest);
        lemma_export_reads_back(items.drop_first());
        assert(read_records(t) == Some(seq![fields] + records_of(items.drop_first())));
    }
}

} // verus!
