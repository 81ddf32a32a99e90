//! Small string helpers shared by the rest of the library: character-level
//! building and comparison, Unicode whitespace trimming, joining, and decimal
//! rendering of integers.

use vstd::prelude::*;

verus! {

/// Appends one character to a string (`String::push`).
///
/// Trusted: the standard library documents that `push` appends the given
/// `char` to the end of the `String`; this contract says exactly that.
#[verifier::external_body]
pub(crate) fn push_char(s: &mut String, c: char)
    ensures
        final(s)@ == old(s)@.push(c),
{
    s.push(c);
}

/// Appends every character of `chars` to `out`.
pub fn push_chars(out: &mut String, chars: &[char])
    ensures
        final(out)@ == old(out)@ + chars@,
{
    let mut i: usize = 0;
    while i < chars.len()
        invariant
            i <= chars.len(),
            out@ == old(out)@ + chars@.take(i as int),
        decreases chars.len() - i,
    {
        push_char(out, chars[i]);
        assert(chars@.take(i + 1) == chars@.take(i as int).push(chars@[i as int]));
        i = i + 1;
    }
    assert(chars@.take(chars.len() as int) == chars@);
}

/// Appends a whole string slice to `out`.
pub fn push_str(out: &mut String, s: &str)
    ensures
        final(out)@ == old(out)@ + s@,
{
    let v = chars_of(s);
    push_chars(out, v.as_slice());
}

/// The characters of a string slice, in order.
pub fn chars_of(s: &str) -> (v: Vec<char>)
    ensures
        v@ == s@,
{
    broadcast use vstd::string::group_string_axioms;
    let mut v: Vec<char> = Vec::new();
    let ghost all = s@;
    for c in it: s.chars()
        invariant
            it.seq() == all,
            v@ == all.take(it.index() as int),
    {
        v.push(c);
        assert(all.take(it.index() + 1) == all.take(it.index() as int).push(c));
    }
    assert(all.take(all.len() as int) == all);
    v
}

/// A new string holding the characters of `chars` from `from` up to `to`.
pub fn string_of_range(chars: &[char], from: usize, to: usize) -> (s: String)
    requires
        from <= to <= chars@.len(),
    ensures
        s@ == chars@.subrange(from as int, to as int),
{
    let mut s = String::new();
    let mut i: usize = from;
    while i < to
        invariant
            from <= i <= to <= chars@.len(),
            s@ == chars@.subrange(from as int, i as int),
        decreases to - i,
    {
        push_char(&mut s, chars[i]);
        assert(chars@.subrange(from as int, i + 1) == chars@.subrange(from as int, i as int).push(chars@[i as int]));
        i = i + 1;
    }
    s
}

/// Whether two string slices hold the same characters.
pub fn str_eq(a: &str, b: &str) -> (same: bool)
    ensures
        same == (a@ == b@),
{
    let va = chars_of(a);
    let vb = chars_of(b);
    if va.len() != vb.len() {
        return false;
    }
    let mut i: usize = 0;
    while i < va.len()
        invariant
            va@ == a@,
            vb@ == b@,
            va.len() == vb.len(),
            i <= va.len(),
            forall|j: int| 0 <= j < i ==> va@[j] == vb@[j],
        decreases va.len() - i,
    {
        if va[i] != vb[i] {
            return false;
        }
        i = i + 1;
    }
    assert(va@ == vb@);
    true
}

/// Whether `s` begins with `prefix`.
pub open spec fn spec_starts_with(s: Seq<char>, prefix: Seq<char>) -> bool {
    prefix.len() <= s.len() && s.take(prefix.len() as int) == prefix
}

/// Whether the string slice `s` begins with `prefix` (`str::starts_with`).
pub fn starts_with(s: &str, prefix: &str) -> (b: bool)
    ensures
        b == spec_starts_with(s@, prefix@),
{
    let vs = chars_of(s);
    let vp = chars_of(prefix);
    if vp.len() > vs.len() {
        return false;
    }
    let mut i: usize = 0;
    while i < vp.len()
        invariant
            vs@ == s@,
            vp@ == prefix@,
            vp.len() <= vs.len(),
            i <= vp.len(),
            forall|j: int| 0 <= j < i ==> vs@[j] == vp@[j],
        decreases vp.len() - i,
    {
        if vs[i] != vp[i] {
            return false;
        }
        i = i + 1;
    }
    assert(vs@.take(vp.len() as int) == vp@);
    true
}

/// Unicode `White_Space` characters, the ones `char::is_whitespace` and
/// `str::trim` treat as whitespace.
pub open spec fn is_white_space(c: char) -> bool {
    ||| ('\u{9}' <= c && c <= '\u{d}')
    ||| c == ' '
    ||| c == '\u{85}'
    ||| c == '\u{a0}'
    ||| c == '\u{1680}'
    ||| ('\u{2000}' <= c && c <= '\u{200a}')
    ||| c == '\u{2028}'
    ||| c == '\u{2029}'
    ||| c == '\u{202f}'
    ||| c == '\u{205f}'
    ||| c == '\u{3000}'
}

/// `s` without its leading whitespace.
pub open spec fn trim_start(s: Seq<char>) -> Seq<char>
    decreases s.len(),
{
    if s.len() > 0 && is_white_space(s[0]) {
        trim_start(s.drop_first())
    } else {
        s
    }
}

/// `s` without its trailing whitespace.
pub open spec fn trim_end(s: Seq<char>) -> Seq<char>
    decreases s.len(),
{
    if s.len() > 0 && is_white_space(s.last()) {
        trim_end(s.drop_last())
    } else {
        s
    }
}

/// `s` without leading and trailing whitespace.
pub open spec fn spec_trim(s: Seq<char>) -> Seq<char> {
    trim_end(trim_start(s))
}

/// Whether `c` is Unicode whitespace (`char::is_whitespace`).
pub fn white_space(c: char) -> (b: bool)
    ensures
        b == is_white_space(c),
{
    ('\u{9}' <= c && c <= '\u{d}') || c == ' ' || c == '\u{85}' || c == '\u{a0}' || c == '\u{1680}'
        || ('\u{2000}' <= c && c <= '\u{200a}') || c == '\u{2028}' || c == '\u{2029}'
        || c == '\u{202f}' || c == '\u{205f}' || c == '\u{3000}'
}

/// `s` without leading and trailing whitespace, as `str::trim` gives it.
pub fn trim(s: &str) -> (t: String)
    ensures
        t@ == spec_trim(s@),
{
    let v = chars_of(s);
    let mut start: usize = 0;
    assert(v@.skip(0) =~= v@);
    while start < v.len() && white_space(v[start])
        invariant
            start <= v.len(),
            v@ == s@,
            trim_start(v@) == trim_start(v@.skip(start as int)),
        decreases v.len() - start,
    {
        assert(v@.skip(start as int).drop_first() =~= v@.skip(start + 1));
        start = start + 1;
    }
    let ghost rest = v@.skip(start as int);
    assert(trim_start(rest) == rest);
    let mut end: usize = v.len();
    while end > start && white_space(v[end - 1])
        invariant
            start <= end <= v.len(),
            v@ == s@,
            rest == v@.skip(start as int),
            trim_end(rest) == trim_end(v@.subrange(start as int, end as int)),
        decreases end - start,
    {
        assert(v@.subrange(start as int, end as int).drop_last() =~= v@.subrange(start as int, end - 1));
        end = end - 1;
    }
    assert(rest =~= v@.subrange(start as int, v.len() as int));
    string_of_range(v.as_slice(), start, end)
}

/// `s` with no leading or trailing whitespace.
pub open spec fn is_trimmed(s: Seq<char>) -> bool {
    s.len() > 0 ==> !is_white_space(s[0]) && !is_white_space(s.last())
}

proof fn lemma_trim_end_keeps_start(s: Seq<char>)
    requires
        s.len() > 0 ==> !is_white_space(s[0]),
    ensures
        trim_end(s).len() > 0 ==> !is_white_space(trim_end(s)[0]),
        trim_end(s).len() > 0 ==> !is_white_space(trim_end(s).last()),
        trim_end(s).len() <= s.len(),
    decreases s.len(),
{
    if s.len() > 0 && is_white_space(s.last()) {
        let d = s.drop_last();
        if d.len() > 0 {
            assert(d[0] == s[0]);
        }
        lemma_trim_end_keeps_start(d);
    }
}

proof fn lemma_trim_start_result(s: Seq<char>)
    ensures
        trim_start(s).len() > 0 ==> !is_white_space(trim_start(s)[0]),
        trim_start(s).len() <= s.len(),
    decreases s.len(),
{
    if s.len() > 0 && is_white_space(s[0]) {
        lemma_trim_start_result(s.drop_first());
    }
}

/// A trimmed text has no whitespace at either end, and trimming it again
/// leaves it as it is.
pub proof fn lemma_trim_trimmed(s: Seq<char>)
    ensures
        is_trimmed(spec_trim(s)),
        spec_trim(spec_trim(s)) == spec_trim(s),
        spec_trim(s).len() <= s.len(),
{
    lemma_trim_start_result(s);
    lemma_trim_end_keeps_start(trim_start(s));
    lemma_trim_of_trimmed(spec_trim(s));
}

/// Trimming a text with no whitespace at either end changes nothing.
pub proof fn lemma_trim_of_trimmed(s: Seq<char>)
    requires
        is_trimmed(s),
    ensures
        spec_trim(s) == s,
{
}

/// The texts of `list` with `sep` between each two of them.
pub open spec fn seq_join(list: Seq<Seq<char>>, sep: Seq<char>) -> Seq<char>
    decreases list.len(),
{
    if list.len() == 0 {
        Seq::empty()
    } else if list.len() == 1 {
        list[0]
    } else {
        seq_join(list.drop_last(), sep) + sep + list.last()
    }
}

/// Joins the strings of `list` with `sep` between them (`[String]::join`).
pub fn join(list: &Vec<String>, sep: &str) -> (joined: String)
    ensures
        joined@ == seq_join(list.deep_view(), sep@),
{
    let mut out = String::new();
    let ghost dv = list.deep_view();
    let mut i: usize = 0;
    while i < list.len()
        invariant
            i <= list.len(),
            dv == list.deep_view(),
            dv.len() == list.len(),
            out@ == seq_join(dv.take(i as int), sep@),
        decreases list.len() - i,
    {
        assert(dv[i as int] == list[i as int]@);
        if i != 0 {
            push_str(&mut out, sep);
        }
        push_str(&mut out, list[i].as_str());
        assert(dv.take(i + 1).drop_last() == dv.take(i as int));
        i = i + 1;
    }
    assert(dv.take(list.len() as int) == dv);
    out
}

/// The decimal digit for `d` (`0 <= d < 10`).
pub open spec fn digit_char(d: nat) -> char {
    if d == 0 { '0' }
    else if d == 1 { '1' }
    else if d == 2 { '2' }
    else if d == 3 { '3' }
    else if d == 4 { '4' }
    else if d == 5 { '5' }
    else if d == 6 { '6' }
    else if d == 7 { '7' }
    else if d == 8 { '8' }
    else { '9' }
}

/// The decimal digits of `n`, most significant first, with no leading zero.
pub open spec fn nat_digits(n: nat) -> Seq<char>
    decreases n,
{
    if n < 10 {
        seq![digit_char(n)]
    } else {
        nat_digits(n / 10).push(digit_char(n % 10))
    }
}

/// The decimal text of an integer, with a `-` sign when it is negative.
pub open spec fn decimal(n: int) -> Seq<char> {
    if n < 0 {
        seq!['-'] + nat_digits((-n) as nat)
    } else {
        nat_digits(n as nat)
    }
}

fn digit(d: u64) -> (c: char)
    requires
        d < 10,
    ensures
        c == digit_char(d as nat),
{
    if d == 0 { '0' }
    else if d == 1 { '1' }
    else if d == 2 { '2' }
    else if d == 3 { '3' }
    else if d == 4 { '4' }
    else if d == 5 { '5' }
    else if d == 6 { '6' }
    else if d == 7 { '7' }
    else if d == 8 { '8' }
    else { '9' }
}

fn push_digits(out: &mut String, n: u64)
    ensures
        final(out)@ == old(out)@ + nat_digits(n as nat),
    decreases n,
{
    if n >= 10 {
        push_digits(out, n / 10);
    }
    push_char(out, digit(n % 10));
}

/// Appends the decimal text of `n` to `out` (as `i64`'s `Display` writes it).
pub fn push_decimal(out: &mut String, n: i64)
    ensures
        final(out)@ == old(out)@ + decimal(n as int),
{
    if n < 0 {
        push_char(out, '-');
        let magnitude: u64 = (0i128 - (n as i128)) as u64;
        push_digits(out, magnitude);
    } else {
        push_digits(out, n as u64);
    }
}

/// The code points of the Unicode `White_Space` property, one by one, as
/// the Unicode Character Database's PropList.txt lists them (and as
/// `char::is_whitespace` tests them).
pub open spec fn unicode_white_space() -> Set<int> {
    set![
        0x9int, 0xA, 0xB, 0xC, 0xD, 0x20, 0x85, 0xA0, 0x1680,
        0x2000, 0x2001, 0x2002, 0x2003, 0x2004, 0x2005, 0x2006, 0x2007, 0x2008, 0x2009, 0x200A,
        0x2028, 0x2029, 0x202F, 0x205F, 0x3000
    ]
}

/// The whitespace that trimming removes is exactly Unicode `White_Space`.
pub proof fn lemma_white_space_is_unicode(c: char)
    ensures
        is_white_space(c) <==> unicode_white_space().contains(c as int),
{
}

proof fn lemma_trim_start_split(s: Seq<char>) -> (a: int)
    ensures
        0 <= a <= s.len(),
        trim_start(s) == s.skip(a),
        forall|i: int| 0 <= i < a ==> is_white_space(#[trigger] s[i]),
        a < s.len() ==> !is_white_space(s[a]),
    decreases s.len(),
{
    if s.len() > 0 && is_white_space(s[0]) {
        let a1 = lemma_trim_start_split(s.drop_first());
        assert(s.drop_first().skip(a1) =~= s.skip(a1 + 1));
        assert forall|i: int| 0 <= i < a1 + 1 implies is_white_space(#[trigger] s[i]) by {
            if i > 0 {
                assert(s[i] == s.drop_first()[i - 1]);
            }
        }
        if a1 + 1 < s.len() {
            assert(s[a1 + 1] == s.drop_first()[a1]);
        }
        a1 + 1
    } else {
        assert(s.skip(0) =~= s);
        0
    }
}

proof fn lemma_trim_end_split(s: Seq<char>) -> (b: int)
    ensures
        0 <= b <= s.len(),
        trim_end(s) == s.take(b),
        forall|i: int| b <= i < s.len() ==> is_white_space(#[trigger] s[i]),
        b > 0 ==> !is_white_space(s[b - 1]),
    decreases s.len(),
{
    if s.len() > 0 && is_white_space(s.last()) {
        let b1 = lemma_trim_end_split(s.drop_last());
        assert(s.drop_last().take(b1) =~= s.take(b1));
        assert forall|i: int| b1 <= i < s.len() implies is_white_space(#[trigger] s[i]) by {
            if i < s.len() - 1 {
                assert(s[i] == s.drop_last()[i]);
            }
        }
        if b1 > 0 {
            assert(s[b1 - 1] == s.drop_last()[b1 - 1]);
        }
        b1
    } else {
        assert(s.take(s.len() as int) =~= s);
        s.len() as int
    }
}

/// Trimming keeps a contiguous part of the text and removes only Unicode
/// `White_Space` characters, from either end, as many as there are: the
/// part kept neither begins nor ends with one. So a text that neither
/// begins nor ends with whitespace is kept as it is.
pub proof fn lemma_trim_removes_only_white_space(s: Seq<char>) -> (ab: (int, int))
    ensures
        0 <= ab.0 <= ab.1 <= s.len(),
        spec_trim(s) == s.subrange(ab.0, ab.1),
        forall|i: int| 0 <= i < ab.0 ==> unicode_white_space().contains(#[trigger] s[i] as int),
        forall|i: int| ab.1 <= i < s.len() ==> unicode_white_space().contains(#[trigger] s[i] as int),
        ab.0 < ab.1 ==> !unicode_white_space().contains(s[ab.0] as int),
        ab.0 < ab.1 ==> !unicode_white_space().contains(s[ab.1 - 1] as int),
        (s.len() > 0 && !unicode_white_space().contains(s[0] as int)
            && !unicode_white_space().contains(s.last() as int)) ==> spec_trim(s) == s,
{
    let a = lemma_trim_start_split(s);
    let rest = s.skip(a);
    let b = lemma_trim_end_split(rest);
    assert(rest.take(b) =~= s.subrange(a, a + b));
    assert forall|i: int| 0 <= i < a implies unicode_white_space().contains(#[trigger] s[i] as int) by {
        lemma_white_space_is_unicode(s[i]);
    }
    assert forall|i: int| a + b <= i < s.len() implies unicode_white_space().contains(#[trigger] s[i] as int) by {
        assert(s[i] == rest[i - a]);
        lemma_white_space_is_unicode(s[i]);
    }
    if b > 0 {
        assert(s[a] == rest[0]);
        lemma_white_space_is_unicode(s[a]);
        assert(s[a + b - 1] == rest[b - 1]);
        lemma_white_space_is_unicode(s[a + b - 1]);
    }
    if s.len() > 0 {
        lemma_white_space_is_unicode(s[0]);
        lemma_white_space_is_unicode(s.last());
        if !is_white_space(s[0]) && !is_white_space(s.last()) {
            lemma_trim_of_trimmed(s);
        }
    }
    (a, a + b)
}

/// Joining with a separator: nothing for no texts, the text itself for one,
/// and one more text is added after one more separator.
pub proof fn lemma_join_laws(list: Seq<Seq<char>>, x: Seq<char>, sep: Seq<char>)
    ensures
        seq_join(Seq::<Seq<char>>::empty(), sep) == Seq::<char>::empty(),
        seq_join(seq![x], sep) == x,
        list.len() >= 1 ==> seq_join(list.push(x), sep) == seq_join(list, sep) + sep + x,
{
    assert(seq![x][0] == x);
    if list.len() >= 1 {
        assert(list.push(x).drop_last() =~= list);
    }
}

/// The total number of characters in a list of texts.
pub open spec fn total_len(list: Seq<Seq<char>>) -> int
    decreases list.len(),
{
    if list.len() == 0 {
        0
    } else {
        total_len(list.drop_last()) + list.last().len()
    }
}

/// Joining puts exactly one separator between each two texts: the joined
/// text is as long as all the texts together plus one separator fewer than
/// there are texts.
pub proof fn lemma_join_length(list: Seq<Seq<char>>, sep: Seq<char>)
    requires
        list.len() >= 1,
    ensures
        seq_join(list, sep).len() == total_len(list) + (list.len() - 1) * sep.len(),
    decreases list.len(),
{
    if list.len() == 1 {
        assert(list.drop_last() =~= Seq::<Seq<char>>::empty());
        assert(total_len(list.drop_last()) == 0);
        assert(list.last() == list[0]);
        assert((list.len() - 1) * sep.len() == 0) by (nonlinear_arith)
            requires
                list.len() == 1;
    } else {
        lemma_join_length(list.drop_last(), sep);
        assert((list.len() - 1) * sep.len() == (list.len() - 2) * sep.len() + sep.len()) by (nonlinear_arith);
        assert(list.drop_last().len() == list.len() - 1);
    }
}

proof fn lemma_digit_char(k: nat)
    requires
        k < 10,
    ensures
        digit_char(k) as int == 48 + k,
        crate::config::is_digit(digit_char(k)),
{
}

proof fn lemma_nat_digits(n: nat)
    ensures
        crate::config::all_digits(nat_digits(n)),
        crate::config::digits_value(nat_digits(n)) == n,
        nat_digits(n).len() >= 1,
        nat_digits(n).len() > 1 ==> nat_digits(n)[0] != '0',
    decreases n,
{
    if n >= 10 {
        lemma_nat_digits(n / 10);
        lemma_digit_char(n % 10);
        let prev = nat_digits(n / 10);
        let d = nat_digits(n);
        assert(d == prev.push(digit_char(n % 10)));
        assert(d.drop_last() =~= prev);
        assert(d[0] == prev[0]);
        assert(crate::config::digits_value(d) == 10 * crate::config::digits_value(prev) + ((d.last() as int) - ('0' as int)));
        assert forall|i: int| 0 <= i < d.len() implies crate::config::is_digit(#[trigger] d[i]) by {
            if i < prev.len() {
                assert(d[i] == prev[i]);
            }
        }
        assert(10 * (n / 10) + n % 10 == n);
        if prev.len() == 1 {
            if n / 10 >= 10 {
                lemma_nat_digits(n / 10 / 10);
            }
            assert(n / 10 < 10);
            lemma_digit_char(n / 10);
            assert(prev[0] == digit_char(n / 10));
        }
    } else {
        lemma_digit_char(n);
        let d = seq![digit_char(n)];
        assert(d.drop_last() =~= Seq::<char>::empty());
        assert(crate::config::digits_value(d.drop_last()) == 0);
        assert(crate::config::digits_value(d) == 10 * crate::config::digits_value(d.drop_last()) + ((d.last() as int) - ('0' as int)));
    }
}

/// The decimal text of an integer is its digits, with no leading zero, and
/// with `-` in front when it is negative; read as a decimal number the
/// digits give back the integer's size.
pub proof fn lemma_decimal_reads_back(n: int)
    ensures
        n >= 0 ==> crate::config::all_digits(decimal(n)) && crate::config::digits_value(decimal(n)) == n,
        n < 0 ==> decimal(n)[0] == '-' && crate::config::all_digits(decimal(n).skip(1))
            && crate::config::digits_value(decimal(n).skip(1)) == -n,
        decimal(n).len() >= 1,
        (n >= 0 && decimal(n).len() > 1) ==> decimal(n)[0] != '0',
{
    if n >= 0 {
        lemma_nat_digits(n as nat);
    } else {
        lemma_nat_digits((-n) as nat);
        assert(decimal(n).skip(1) =~= nat_digits((-n) as nat));
    }
}

} // verus!
