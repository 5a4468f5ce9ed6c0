//! Tokenizer/normalizer: turns raw delimited text into a rectangular matrix
//! of trimmed cells.
//!
//! The first line is the header and fixes the column count `n` for the whole
//! table. Every later line is split on the same delimiter, each field is
//! trimmed of surrounding whitespace, short rows are padded with single-space
//! cells up to `n` fields, and longer rows are truncated to `n` fields, so
//! the table is rectangular by construction. Content is split into lines on
//! newline boundaries, and a trailing newline yields no spurious empty row.

use vstd::prelude::*;

verus! {

use vstd::string::StrSliceExecFns;
use crate::width::header_cols;

/// Whether a character counts as trimmable whitespace (the Unicode
/// White_Space property).
pub uninterp spec fn unicode_whitespace(c: char) -> bool;

/// Relies on char::is_whitespace of std: true exactly for characters with
/// the Unicode White_Space property; the result depends on the character
/// alone.
#[verifier::external_body]
fn char_is_whitespace(c: char) -> (r: bool)
    ensures
        r == unicode_whitespace(c),
{
    c.is_whitespace()
}

/// The pieces of `s` between occurrences of the delimiter `d`, in order.
/// There is always at least one piece; a delimiter at either end or two in a
/// row yield empty pieces.
pub open spec fn split_seq(s: Seq<char>, d: char) -> Seq<Seq<char>>
    decreases s.len(),
{
    if s.len() == 0 {
        seq![Seq::<char>::empty()]
    } else if s[0] == d {
        seq![Seq::<char>::empty()] + split_seq(s.drop_first(), d)
    } else {
        let rest = split_seq(s.drop_first(), d);
        rest.update(0, seq![s[0]] + rest[0])
    }
}

/// Splitting yields at least one piece.
pub proof fn lemma_split_len(s: Seq<char>, d: char)
    ensures
        split_seq(s, d).len() >= 1,
    decreases s.len(),
{
    if s.len() > 0 {
        lemma_split_len(s.drop_first(), d);
    }
}

/// A string without the delimiter splits into itself alone.
proof fn lemma_split_no_delim(s: Seq<char>, d: char)
    requires
        forall|j: int| 0 <= j < s.len() ==> s[j] != d,
    ensures
        split_seq(s, d) == seq![s],
    decreases s.len(),
{
    if s.len() == 0 {
        assert(seq![Seq::<char>::empty()] =~~= seq![s]);
    } else {
        lemma_split_no_delim(s.drop_first(), d);
        let rest = split_seq(s.drop_first(), d);
        assert(rest.update(0, seq![s[0]] + rest[0]) =~~= seq![s]) by {
            assert(seq![s[0]] + s.drop_first() =~= s);
        }
    }
}

/// Splitting off a leading delimiter-free piece: the piece becomes the first
/// field and the rest splits on its own.
proof fn lemma_split_delim(a: Seq<char>, b: Seq<char>, d: char)
    requires
        forall|j: int| 0 <= j < a.len() ==> a[j] != d,
    ensures
        split_seq(a + seq![d] + b, d) == seq![a] + split_seq(b, d),
    decreases a.len(),
{
    let s = a + seq![d] + b;
    if a.len() == 0 {
        assert(s[0] == d);
        assert(s.drop_first() =~= b);
        assert(seq![Seq::<char>::empty()] + split_seq(b, d) =~~= seq![a] + split_seq(b, d)) by {
            assert(a =~= Seq::<char>::empty());
        }
    } else {
        assert(s[0] == a[0]);
        assert(s.drop_first() =~= a.drop_first() + seq![d] + b);
        lemma_split_delim(a.drop_first(), b, d);
        let rest = split_seq(s.drop_first(), d);
        lemma_split_len(b, d);
        assert(rest[0] == a.drop_first());
        assert(rest.update(0, seq![s[0]] + rest[0]) =~~= seq![a] + split_seq(b, d)) by {
            assert(seq![a[0]] + a.drop_first() =~= a);
        }
    }
}

/// Split `s` into the pieces between occurrences of `d`.
pub fn split_on(s: &str, d: char) -> (parts: Vec<String>)
    ensures
        parts.deep_view() == split_seq(s@, d),
{
    let n: usize = s.unicode_len();
    let mut parts: Vec<String> = Vec::new();
    let mut start: usize = 0;
    let mut i: usize = 0;
    proof {
        assert(parts.deep_view() =~~= Seq::<Seq<char>>::empty());
        assert(Seq::<Seq<char>>::empty() + split_seq(s@, d) =~= split_seq(s@, d));
        assert(s@.skip(0) =~= s@);
    }
    while i < n
        invariant
            start <= i <= n,
            n == s@.len(),
            forall|j: int| start <= j < i ==> s@[j] != d,
            split_seq(s@, d) == parts.deep_view() + split_seq(s@.skip(start as int), d),
        decreases n - i,
    {
        let c = s.get_char(i);
        if c == d {
            let piece = s.substring_char(start, i).to_owned();
            let ghost p = piece@;
            let ghost before = parts.deep_view();
            proof {
                assert(s@.skip(start as int) =~= s@.subrange(start as int, i as int) + seq![d]
                    + s@.skip(i + 1));
                lemma_split_delim(s@.subrange(start as int, i as int), s@.skip(i + 1), d);
            }
            parts.push(piece);
            proof {
                assert(parts.deep_view() =~~= before + seq![p]);
                assert((before + seq![p]) + split_seq(s@.skip(i + 1), d) =~~= before + (seq![p]
                    + split_seq(s@.skip(i + 1), d)));
            }
            start = i + 1;
        }
        i = i + 1;
    }
    let piece = s.substring_char(start, n).to_owned();
    let ghost p = piece@;
    let ghost before = parts.deep_view();
    proof {
        assert(s@.subrange(start as int, n as int) =~= s@.skip(start as int));
        lemma_split_no_delim(s@.skip(start as int), d);
    }
    parts.push(piece);
    proof {
        assert(parts.deep_view() =~~= before + seq![p]);
    }
    parts
}

/// `s` with leading whitespace removed.
pub open spec fn trim_front(s: Seq<char>) -> Seq<char>
    decreases s.len(),
{
    if s.len() == 0 {
        s
    } else if unicode_whitespace(s[0]) {
        trim_front(s.drop_first())
    } else {
        s
    }
}

/// `s` with trailing whitespace removed.
pub open spec fn trim_back(s: Seq<char>) -> Seq<char>
    decreases s.len(),
{
    if s.len() == 0 {
        s
    } else if unicode_whitespace(s.last()) {
        trim_back(s.drop_last())
    } else {
        s
    }
}

/// `s` with surrounding whitespace removed.
pub open spec fn trim_spec(s: Seq<char>) -> Seq<char> {
    trim_back(trim_front(s))
}

/// Remove surrounding whitespace from a string.
pub fn trim_str(s: &str) -> (r: String)
    ensures
        r@ == trim_spec(s@),
{
    let n: usize = s.unicode_len();
    let mut lo: usize = 0;
    proof {
        assert(s@.skip(0) =~= s@);
    }
    loop
        invariant_except_break
            lo <= n,
            n == s@.len(),
            trim_front(s@) == trim_front(s@.skip(lo as int)),
        ensures
            lo <= n,
            n == s@.len(),
            trim_front(s@) == s@.skip(lo as int),
        decreases n - lo,
    {
        if lo >= n {
            proof {
                assert(s@.skip(lo as int) =~= Seq::<char>::empty());
            }
            break;
        }
        let c = s.get_char(lo);
        if !char_is_whitespace(c) {
            proof {
                assert(s@.skip(lo as int)[0] == s@[lo as int]);
            }
            break;
        }
        proof {
            assert(s@.skip(lo as int).drop_first() =~= s@.skip(lo + 1));
        }
        lo = lo + 1;
    }
    let mut hi: usize = n;
    proof {
        assert(s@.skip(lo as int) =~= s@.subrange(lo as int, n as int));
    }
    loop
        invariant_except_break
            lo <= hi <= n,
            n == s@.len(),
            trim_front(s@) == s@.skip(lo as int),
            trim_back(s@.skip(lo as int)) == trim_back(s@.subrange(lo as int, hi as int)),
        ensures
            lo <= hi <= n,
            trim_spec(s@) == s@.subrange(lo as int, hi as int),
        decreases hi,
    {
        if hi <= lo {
            proof {
                assert(s@.subrange(lo as int, hi as int) =~= Seq::<char>::empty());
            }
            break;
        }
        let c = s.get_char(hi - 1);
        if !char_is_whitespace(c) {
            proof {
                assert(s@.subrange(lo as int, hi as int).last() == s@[hi - 1]);
            }
            break;
        }
        proof {
            assert(s@.subrange(lo as int, hi as int).drop_last() =~= s@.subrange(
                lo as int,
                hi - 1,
            ));
        }
        hi = hi - 1;
    }
    s.substring_char(lo, hi).to_owned()
}

/// The fields of one line: split on the delimiter, each piece trimmed.
pub open spec fn fields_spec(line: Seq<char>, d: char) -> Seq<Seq<char>> {
    split_seq(line, d).map_values(|f: Seq<char>| trim_spec(f))
}

/// Split a line on the delimiter and trim every field.
pub fn split_fields(line: &str, d: char) -> (fields: Vec<String>)
    ensures
        fields.deep_view() == fields_spec(line@, d),
{
    let parts = split_on(line, d);
    let mut fields: Vec<String> = Vec::new();
    let mut i: usize = 0;
    while i < parts.len()
        invariant
            i <= parts@.len(),
            parts.deep_view() == split_seq(line@, d),
            fields.deep_view().len() == i,
            forall|j: int|
                0 <= j < i ==> fields.deep_view()[j] == trim_spec(parts.deep_view()[j]),
        decreases parts@.len() - i,
    {
        let t = trim_str(parts[i].as_str());
        let ghost tv = t@;
        let ghost before = fields.deep_view();
        proof {
            assert(parts@[i as int]@ == parts.deep_view()[i as int]);
        }
        fields.push(t);
        proof {
            assert(fields.deep_view() =~~= before + seq![tv]);
        }
        i = i + 1;
    }
    proof {
        assert(fields.deep_view() =~~= fields_spec(line@, d));
    }
    fields
}

/// The lines of the content: the pieces between newlines, except that a
/// trailing newline yields no final empty line.
pub open spec fn lines_spec(content: Seq<char>) -> Seq<Seq<char>> {
    let parts = split_seq(content, '\n');
    if parts.last().len() == 0 {
        parts.drop_last()
    } else {
        parts
    }
}

/// Split the content into lines.
pub fn lines_of(content: &str) -> (lines: Vec<String>)
    ensures
        lines.deep_view() == lines_spec(content@),
{
    let mut parts = split_on(content, '\n');
    proof {
        lemma_split_len(content@, '\n');
    }
    let last: &String = &parts[parts.len() - 1];
    proof {
        assert(parts@[parts@.len() - 1]@ == parts.deep_view().last());
    }
    if last.as_str().unicode_len() == 0 {
        let ghost before = parts.deep_view();
        let _ = parts.pop();
        proof {
            assert(parts.deep_view() =~~= before.drop_last());
        }
    }
    parts
}

/// A single-space placeholder cell.
pub open spec fn pad_cell() -> Seq<char> {
    seq![' ']
}

/// Fields brought to exactly `n` cells: short rows are padded with
/// single-space cells, long rows are truncated.
pub open spec fn normalize_spec(fields: Seq<Seq<char>>, n: nat) -> Seq<Seq<char>> {
    if fields.len() >= n {
        fields.take(n as int)
    } else {
        fields + Seq::new((n - fields.len()) as nat, |i: int| pad_cell())
    }
}

/// Pad or truncate a row to exactly `n` cells.
fn normalize_row(row: Vec<String>, n: usize) -> (r: Vec<String>)
    ensures
        r.deep_view() == normalize_spec(row.deep_view(), n as nat),
        r@.len() == n,
{
    let ghost f = row.deep_view();
    let mut row = row;
    if row.len() >= n {
        row.truncate(n);
        proof {
            assert(row.deep_view() =~~= f.take(n as int));
        }
        row
    } else {
        while row.len() < n
            invariant
                f.len() <= row@.len() <= n,
                row.deep_view() == f + Seq::new((row@.len() - f.len()) as nat,
                    |i: int| pad_cell(),
                ),
            decreases n - row@.len(),
        {
            let ghost before = row.deep_view();
            let cell = " ".to_owned();
            let ghost cv = cell@;
            proof {
                reveal_strlit(" ");
                assert(cv =~= pad_cell());
            }
            row.push(cell);
            proof {
                assert(row.deep_view() =~~= before + seq![cv]);
                assert(before + seq![cv] =~~= f + Seq::new(
                    (row@.len() - f.len()) as nat,
                    |i: int| pad_cell(),
                ));
            }
        }
        proof {
            assert(row.deep_view() =~~= normalize_spec(f, n as nat));
        }
        row
    }
}

/// Whether every row of the table has exactly the header's field count.
pub open spec fn rectangular(t: Seq<Seq<Seq<char>>>) -> bool {
    forall|i: int| 0 <= i < t.len() ==> #[trigger] t[i].len() == header_cols(t)
}

/// The table parsed from raw content: the first line gives the header and
/// the column count, every later line gives one row, normalized to that
/// count. Content without a single line gives the empty table.
pub open spec fn parse_spec(content: Seq<char>, d: char) -> Seq<Seq<Seq<char>>> {
    let ls = lines_spec(content);
    if ls.len() == 0 {
        Seq::empty()
    } else {
        let header = fields_spec(ls[0], d);
        let n = header.len();
        seq![header] + Seq::new((ls.len() - 1) as nat,
            |i: int| normalize_spec(fields_spec(ls[i + 1], d), n),
        )
    }
}

/// Every parsed table is rectangular: each row has exactly as many cells as
/// the header row.
pub proof fn lemma_parse_rectangular(content: Seq<char>, d: char)
    ensures
        rectangular(parse_spec(content, d)),
{
    let t = parse_spec(content, d);
    let ls = lines_spec(content);
    if ls.len() > 0 {
        let n = fields_spec(ls[0], d).len();
        assert forall|i: int| 0 <= i < t.len() implies #[trigger] t[i].len() == header_cols(t) by {
            if i > 0 {
                assert(t[i] == normalize_spec(fields_spec(ls[i + 1 - 1], d), n));
            }
        }
    }
}

/// Parse delimited content into a rectangular table of trimmed cells.
///
/// The delimiter is a single character, passed as a one-character string,
/// and is honored uniformly for the header and for every data row.
pub fn parse_csv(content: &str, sep: &str) -> (table: Vec<Vec<String>>)
    requires
        sep@.len() == 1,
    ensures
        table.deep_view() == parse_spec(content@, sep@[0]),
        rectangular(table.deep_view()),
{
    let d = sep.get_char(0);
    let ghost spec_table = parse_spec(content@, d);
    let lines = lines_of(content);
    let mut table: Vec<Vec<String>> = Vec::new();
    if lines.len() == 0 {
        proof {
            assert(table.deep_view() =~~= spec_table);
            lemma_parse_rectangular(content@, d);
        }
        return table;
    }
    let ghost ls = lines_spec(content@);
    proof {
        assert(lines@[0]@ == ls[0]);
    }
    let header = split_fields(lines[0].as_str(), d);
    let n: usize = header.len();
    let ghost hdr = header.deep_view();
    proof {
        assert(hdr.len() == n);
    }
    table.push(header);
    proof {
        assert(table.deep_view() =~~= seq![hdr]);
        assert(spec_table.len() == ls.len());
        assert(spec_table.take(1) =~~= seq![hdr]);
    }
    let mut i: usize = 1;
    while i < lines.len()
        invariant
            1 <= i <= lines@.len(),
            lines.deep_view() == ls,
            ls == lines_spec(content@),
            ls.len() > 0,
            spec_table == parse_spec(content@, d),
            spec_table.len() == ls.len(),
            hdr == fields_spec(ls[0], d),
            n == hdr.len(),
            table.deep_view() == spec_table.take(i as int),
        decreases lines@.len() - i,
    {
        proof {
            assert(lines@[i as int]@ == ls[i as int]);
        }
        let row = split_fields(lines[i].as_str(), d);
        let row = normalize_row(row, n);
        let ghost before = table.deep_view();
        let ghost rv = row.deep_view();
        table.push(row);
        proof {
            assert(table.deep_view() =~~= before + seq![rv]);
            assert(spec_table[i as int] == normalize_spec(fields_spec(ls[i as int], d), n as nat));
            assert(spec_table.take(i + 1) =~~= spec_table.take(i as int) + seq![spec_table[i as int]]);
        }
        i = i + 1;
    }
    proof {
        assert(spec_table.take(ls.len() as int) =~~= spec_table);
        lemma_parse_rectangular(content@, d);
    }
    table
}

} // verus!
