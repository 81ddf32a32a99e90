//! Escaping text for XML character data and attribute values.

use vstd::prelude::*;
use crate::text::{push_char, push_chars};

verus! {

/// What one character of text becomes in escaped XML.
pub open spec fn xml_char(c: char) -> Seq<char> {
    if c == '&' {
        seq!['&', 'a', 'm', 'p', ';']
    } else if c == '<' {
        seq!['&', 'l', 't', ';']
    } else if c == '>' {
        seq!['&', 'g', 't', ';']
    } else if c == '"' {
        seq!['&', 'q', 'u', 'o', 't', ';']
    } else if c == '\'' {
        seq!['&', 'a', 'p', 'o', 's', ';']
    } else {
        seq![c]
    }
}

/// The escaped form of a whole text: each character escaped in turn.
pub open spec fn spec_xml_escape(s: Seq<char>) -> Seq<char>
    decreases s.len(),
{
    if s.len() == 0 {
        Seq::empty()
    } else {
        spec_xml_escape(s.drop_last()) + xml_char(s.last())
    }
}

/// Escapes `&`, `<`, `>`, `"` and `'` so that the text can stand inside XML
/// element content or a quoted attribute value.
pub fn xml_escape(value: &str) -> (escaped: String)
    ensures
        escaped@ == spec_xml_escape(value@),
{
    broadcast use vstd::string::group_string_axioms;
    let mut out = String::new();
    let ghost s = value@;
    for c in it: value.chars()
        invariant
            it.seq() == s,
            out@ == spec_xml_escape(s.take(it.index() as int)),
    {
        if c == '&' {
            push_chars(&mut out, &['&', 'a', 'm', 'p', ';']);
        } else if c == '<' {
            push_chars(&mut out, &['&', 'l', 't', ';']);
        } else if c == '>' {
            push_chars(&mut out, &['&', 'g', 't', ';']);
        } else if c == '"' {
            push_chars(&mut out, &['&', 'q', 'u', 'o', 't', ';']);
        } else if c == '\'' {
            push_chars(&mut out, &['&', 'a', 'p', 'o', 's', ';']);
        } else {
            push_char(&mut out, c);
        }
        assert(s.take(it.index() + 1).drop_last() == s.take(it.index() as int));
    }
    assert(s.take(s.len() as int) == s);
    out
}

/// Whether `c` is one of the characters escaping replaces.
pub open spec fn is_markup_char(c: char) -> bool {
    c == '&' || c == '<' || c == '>' || c == '"' || c == '\''
}

/// Reads escaped text back: each of the five entities becomes the
/// character it stands for, any other character stands for itself.
pub open spec fn spec_xml_unescape(t: Seq<char>) -> Seq<char>
    decreases t.len(),
{
    if t.len() == 0 {
        Seq::empty()
    } else if t.len() >= 5 && t.take(5) == seq!['&', 'a', 'm', 'p', ';'] {
        seq!['&'] + spec_xml_unescape(t.skip(5))
    } else if t.len() >= 4 && t.take(4) == seq!['&', 'l', 't', ';'] {
        seq!['<'] + spec_xml_unescape(t.skip(4))
    } else if t.len() >= 4 && t.take(4) == seq!['&', 'g', 't', ';'] {
        seq!['>'] + spec_xml_unescape(t.skip(4))
    } else if t.len() >= 6 && t.take(6) == seq!['&', 'q', 'u', 'o', 't', ';'] {
        seq!['"'] + spec_xml_unescape(t.skip(6))
    } else if t.len() >= 6 && t.take(6) == seq!['&', 'a', 'p', 'o', 's', ';'] {
        seq!['\''] + spec_xml_unescape(t.skip(6))
    } else {
        seq![t[0]] + spec_xml_unescape(t.skip(1))
    }
}

proof fn lemma_escape_first(s: Seq<char>)
    requires
        s.len() > 0,
    ensures
        spec_xml_escape(s) == xml_char(s[0]) + spec_xml_escape(s.drop_first()),
    decreases s.len(),
{
    if s.len() == 1 {
        assert(s.drop_last() =~= Seq::<char>::empty());
        assert(s.drop_first() =~= Seq::<char>::empty());
        assert(s.last() == s[0]);
        assert(spec_xml_escape(s.drop_last()) == Seq::<char>::empty());
        assert(spec_xml_escape(s.drop_first()) == Seq::<char>::empty());
        assert(spec_xml_escape(s) =~= xml_char(s[0]));
    } else {
        lemma_escape_first(s.drop_last());
        assert(s.drop_last().drop_first() =~= s.drop_first().drop_last());
        assert(s.drop_first().last() == s.last());
        assert(s.drop_last()[0] == s[0]);
        assert(spec_xml_escape(s.drop_first()) == spec_xml_escape(s.drop_first().drop_last()) + xml_char(s.drop_first().last()));
        assert(spec_xml_escape(s) =~= xml_char(s[0]) + spec_xml_escape(s.drop_first()));
    }
}

/// Escaped text holds no `<`, `>`, `"` or `'`: it cannot open or close an
/// element or end a quoted attribute value.
pub proof fn lemma_xml_escape_no_markup(s: Seq<char>)
    ensures
        forall|i: int| 0 <= i < spec_xml_escape(s).len() ==> {
            let c = #[trigger] spec_xml_escape(s)[i];
            c != '<' && c != '>' && c != '"' && c != '\''
        },
    decreases s.len(),
{
    if s.len() > 0 {
        lemma_xml_escape_no_markup(s.drop_last());
        let a = spec_xml_escape(s.drop_last());
        let b = xml_char(s.last());
        assert forall|i: int| 0 <= i < (a + b).len() implies {
            let c = #[trigger] (a + b)[i];
            c != '<' && c != '>' && c != '"' && c != '\''
        } by {
            if i < a.len() {
                assert((a + b)[i] == a[i]);
            } else {
                assert((a + b)[i] == b[i - a.len()]);
            }
        }
    }
}

/// Escaping loses nothing: reading the escaped text back gives the
/// text it was made from.
pub proof fn lemma_xml_escape_round_trip(s: Seq<char>)
    ensures
        spec_xml_unescape(spec_xml_escape(s)) == s,
    decreases s.len(),
{
    if s.len() > 0 {
        lemma_escape_first(s);
        let c = s[0];
        let rest = spec_xml_escape(s.drop_first());
        lemma_xml_escape_round_trip(s.drop_first());
        let t = xml_char(c) + rest;
        assert(t.skip(xml_char(c).len() as int) =~= rest);
        assert(t.take(xml_char(c).len() as int) =~= xml_char(c));
        if !is_markup_char(c) {
            assert(t[0] == c);
            assert(t.skip(1) =~= rest);
        }
        assert(seq![c] + s.drop_first() =~= s);
    }
}

/// Text that can stand as XML character data or a quoted attribute value
/// as it is: every `&` begins one of the entities `&amp;`, `&lt;`, `&gt;`,
/// `&quot;`, `&apos;`, and no `<`, `>`, `"` or `'` occurs.
pub open spec fn well_escaped(t: Seq<char>) -> bool
    decreases t.len(),
{
    if t.len() == 0 {
        true
    } else if t[0] == '&' {
        if t.len() >= 5 && t.take(5) == seq!['&', 'a', 'm', 'p', ';'] {
            well_escaped(t.skip(5))
        } else if t.len() >= 4 && t.take(4) == seq!['&', 'l', 't', ';'] {
            well_escaped(t.skip(4))
        } else if t.len() >= 4 && t.take(4) == seq!['&', 'g', 't', ';'] {
            well_escaped(t.skip(4))
        } else if t.len() >= 6 && t.take(6) == seq!['&', 'q', 'u', 'o', 't', ';'] {
            well_escaped(t.skip(6))
        } else if t.len() >= 6 && t.take(6) == seq!['&', 'a', 'p', 'o', 's', ';'] {
            well_escaped(t.skip(6))
        } else {
            false
        }
    } else {
        !is_markup_char(t[0]) && well_escaped(t.skip(1))
    }
}

/// `e` is the escaped form of `v`: it can stand in XML as it is, and an XML
/// reader reads `v` from it.
pub open spec fn escapes(e: Seq<char>, v: Seq<char>) -> bool {
    well_escaped(e) && spec_xml_unescape(e) == v
}

/// Escaped text can stand in XML as it is, and reads back as the text.
pub proof fn lemma_xml_escape_escapes(s: Seq<char>)
    ensures
        escapes(spec_xml_escape(s), s),
    decreases s.len(),
{
    lemma_xml_escape_round_trip(s);
    if s.len() > 0 {
        lemma_escape_first(s);
        lemma_xml_escape_escapes(s.drop_first());
        let c = s[0];
        let rest = spec_xml_escape(s.drop_first());
        let t = xml_char(c) + rest;
        assert(t.skip(xml_char(c).len() as int) =~= rest);
        assert(t.take(xml_char(c).len() as int) =~= xml_char(c));
        if !is_markup_char(c) {
            assert(t[0] == c);
            assert(t.skip(1) =~= rest);
        }
    }
}

} // verus!
