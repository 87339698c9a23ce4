//! Character-level helpers shared by the tokenizer and the request parser.

use vstd::prelude::*;
use vstd::hash_map::StringHashMap;

verus! {

/// `String::push` appends one character at the end of the string and
/// changes nothing else.
pub assume_specification[ String::push ](s: &mut String, ch: char)
    ensures
        final(s)@ == old(s)@.push(ch),
;

/// `str::eq` tells whether two string slices hold the same characters in
/// the same order.
pub assume_specification[ <str as PartialEq>::eq ](a: &str, b: &str) -> (same: bool)
    ensures
        same == (a@ == b@),
;

/// The characters of `s`, in order.
pub fn chars_of(s: &str) -> (v: Vec<char>)
    ensures
        v@ == s@,
{
    let mut v: Vec<char> = Vec::new();
    for c in it: s.chars()
        invariant
            it.seq() == s@,
            v@ == it.seq().take(it.index() as int),
    {
        v.push(c);
    }
    v
}

/// The string made of `chars[from..to]`.
pub fn string_of(chars: &Vec<char>, from: usize, to: usize) -> (s: String)
    requires
        from <= to <= chars.len(),
    ensures
        s@ == chars@.subrange(from as int, to as int),
{
    let mut s = String::new();
    let mut i: usize = from;
    while i < to
        invariant
            from <= i <= to <= chars.len(),
            s@ == chars@.subrange(from as int, i as int),
        decreases to - i,
    {
        s.push(chars[i]);
        i += 1;
    }
    s
}

/// A map from strings to strings as contracts see it: names and values as
/// character sequences.
pub open spec fn map_view(m: StringHashMap<String>) -> Map<Seq<char>, Seq<char>> {
    m@.map_values(|v: String| v@)
}

/// Whether `c` is white space as `char::is_whitespace` tells it.
pub uninterp spec fn is_white_space(c: char) -> bool;

/// `char::is_whitespace` tells whether the character has the Unicode
/// property `White_Space`: a function of the character alone.
pub assume_specification[ char::is_whitespace ](c: char) -> (white: bool)
    ensures
        white == is_white_space(c),
;

/// The first position at or after `from` that holds `c`, or the length of
/// `s` if none does.
pub open spec fn index_of(s: Seq<char>, from: int, c: char) -> int
    decreases s.len() - from,
{
    if 0 <= from < s.len() && s[from] != c {
        index_of(s, from + 1, c)
    } else {
        from
    }
}

/// The position just after the last `c` in the first `upto` characters of
/// `s`, or 0 if they hold none: where the last piece begins when that
/// prefix is split at every `c`.
pub open spec fn last_piece_start(s: Seq<char>, upto: int, c: char) -> int
    decreases upto,
{
    if 0 < upto <= s.len() && s[upto - 1] != c {
        last_piece_start(s, upto - 1, c)
    } else {
        upto
    }
}

/// The first position at or after `from` that holds no white space, or the
/// length of `s`.
pub open spec fn skip_space(s: Seq<char>, from: int) -> int
    decreases s.len() - from,
{
    if 0 <= from < s.len() && is_white_space(s[from]) {
        skip_space(s, from + 1)
    } else {
        from
    }
}

/// The first position at or after `from` that holds white space, or the
/// length of `s`.
pub open spec fn skip_word(s: Seq<char>, from: int) -> int
    decreases s.len() - from,
{
    if 0 <= from < s.len() && !is_white_space(s[from]) {
        skip_word(s, from + 1)
    } else {
        from
    }
}

/// Where the white space begins that ends the first `upto` characters of
/// `s`, looking no further back than `low`.
pub open spec fn space_start(s: Seq<char>, low: int, upto: int) -> int
    decreases upto,
{
    if 0 <= low < upto <= s.len() && is_white_space(s[upto - 1]) {
        space_start(s, low, upto - 1)
    } else {
        upto
    }
}

/// `s` without the white space at its two ends.
pub open spec fn trimmed(s: Seq<char>) -> Seq<char> {
    let from = skip_space(s, 0);
    s.subrange(from, space_start(s, from, s.len() as int))
}

/// A scan for a character stays within the sequence.
pub proof fn lemma_index_of(s: Seq<char>, from: int, c: char)
    requires
        0 <= from <= s.len(),
    ensures
        from <= index_of(s, from, c) <= s.len(),
        index_of(s, from, c) < s.len() ==> s[index_of(s, from, c)] == c,
        forall|i: int| from <= i < index_of(s, from, c) ==> s[i] != c,
    decreases s.len() - from,
{
    if from < s.len() && s[from] != c {
        lemma_index_of(s, from + 1, c);
    }
}

/// The characters `chars[from..to]`.
pub fn slice_of(chars: &Vec<char>, from: usize, to: usize) -> (part: Vec<char>)
    requires
        from <= to <= chars.len(),
    ensures
        part@ == chars@.subrange(from as int, to as int),
{
    let mut part: Vec<char> = Vec::new();
    let mut i: usize = from;
    while i < to
        invariant
            from <= i <= to <= chars.len(),
            part@ == chars@.subrange(from as int, i as int),
        decreases to - i,
    {
        part.push(chars[i]);
        i += 1;
    }
    part
}

/// Finds the first `c` at or after `from`.
pub fn find(chars: &Vec<char>, from: usize, c: char) -> (at: usize)
    requires
        from <= chars.len(),
    ensures
        at == index_of(chars@, from as int, c),
        from <= at <= chars.len(),
{
    let mut at: usize = from;
    while at < chars.len() && chars[at] != c
        invariant
            from <= at <= chars.len(),
            index_of(chars@, at as int, c) == index_of(chars@, from as int, c),
        decreases chars.len() - at,
    {
        at += 1;
    }
    at
}

/// Finds where the piece after the last `c` begins.
pub fn find_last_piece(chars: &Vec<char>, c: char) -> (at: usize)
    ensures
        at == last_piece_start(chars@, chars.len() as int, c),
        at <= chars.len(),
{
    let mut at: usize = chars.len();
    while at > 0 && chars[at - 1] != c
        invariant
            at <= chars.len(),
            last_piece_start(chars@, at as int, c) == last_piece_start(
                chars@,
                chars.len() as int,
                c,
            ),
        decreases at,
    {
        at -= 1;
    }
    at
}

/// Skips the white space at `from`.
pub fn after_space(chars: &Vec<char>, from: usize) -> (at: usize)
    requires
        from <= chars.len(),
    ensures
        at == skip_space(chars@, from as int),
        from <= at <= chars.len(),
{
    let mut at: usize = from;
    while at < chars.len() && chars[at].is_whitespace()
        invariant
            from <= at <= chars.len(),
            skip_space(chars@, at as int) == skip_space(chars@, from as int),
        decreases chars.len() - at,
    {
        at += 1;
    }
    at
}

/// Skips the word at `from`.
pub fn after_word(chars: &Vec<char>, from: usize) -> (at: usize)
    requires
        from <= chars.len(),
    ensures
        at == skip_word(chars@, from as int),
        from <= at <= chars.len(),
{
    let mut at: usize = from;
    while at < chars.len() && !chars[at].is_whitespace()
        invariant
            from <= at <= chars.len(),
            skip_word(chars@, at as int) == skip_word(chars@, from as int),
        decreases chars.len() - at,
    {
        at += 1;
    }
    at
}

/// `chars` without the white space at its two ends.
pub fn trim(chars: &Vec<char>) -> (inner: Vec<char>)
    ensures
        inner@ == trimmed(chars@),
{
    let from: usize = after_space(chars, 0);
    let mut to: usize = chars.len();
    while from < to && chars[to - 1].is_whitespace()
        invariant
            from <= to <= chars.len(),
            space_start(chars@, from as int, to as int) == space_start(
                chars@,
                from as int,
                chars.len() as int,
            ),
        decreases to,
    {
        to -= 1;
    }
    slice_of(chars, from, to)
}

/// The first of the pieces into which `c` cuts `s`.
pub open spec fn first_piece(s: Seq<char>, c: char) -> Seq<char> {
    s.subrange(0, index_of(s, 0, c))
}

/// The last of the pieces into which `c` cuts `s`.
pub open spec fn last_piece(s: Seq<char>, c: char) -> Seq<char> {
    s.subrange(last_piece_start(s, s.len() as int, c), s.len() as int)
}

/// The first of the pieces into which `c` cuts `chars`.
pub fn first_piece_of(chars: &Vec<char>, c: char) -> (piece: Vec<char>)
    ensures
        piece@ == first_piece(chars@, c),
{
    let end: usize = find(chars, 0, c);
    slice_of(chars, 0, end)
}

/// The last of the pieces into which `c` cuts `chars`.
pub fn last_piece_of(chars: &Vec<char>, c: char) -> (piece: Vec<char>)
    ensures
        piece@ == last_piece(chars@, c),
{
    let from: usize = find_last_piece(chars, c);
    slice_of(chars, from, chars.len())
}

/// The string that `chars` spell.
pub fn string_from(chars: &Vec<char>) -> (s: String)
    ensures
        s@ == chars@,
{
    let s = string_of(chars, 0, chars.len());
    assert(chars@.subrange(0, chars.len() as int) =~= chars@);
    s
}

/// The pieces of `s` from `from` on, cut at every `c`; the pieces do not
/// hold the `c` that ends them.
pub open spec fn split_from(s: Seq<char>, from: int, c: char) -> Seq<Seq<char>>
    decreases s.len() - from,
    when 0 <= from <= s.len()
    via split_from_decreases
{
    let end = index_of(s, from, c);
    if end < s.len() {
        seq![s.subrange(from, end)] + split_from(s, end + 1, c)
    } else {
        seq![s.subrange(from, s.len() as int)]
    }
}

#[via_fn]
proof fn split_from_decreases(s: Seq<char>, from: int, c: char) {
    lemma_index_of(s, from, c);
}

/// The pieces of `s`, cut at every `c`: one more than `s` holds `c`s.
pub open spec fn split(s: Seq<char>, c: char) -> Seq<Seq<char>> {
    split_from(s, 0, c)
}

/// The line that `s[from..end]` holds, where `end` is the end of `s` or
/// the place of a line feed: a carriage return just before the line feed
/// is not part of the line.
pub open spec fn line_at(s: Seq<char>, from: int, end: int) -> Seq<char> {
    if from < end < s.len() && s[end - 1] == '\r' {
        s.subrange(from, end - 1)
    } else {
        s.subrange(from, end)
    }
}

/// The lines of `s` from `from` on. A line ends at a line feed, or at a
/// carriage return followed by one, or at the end of `s`; nothing follows
/// a line feed that ends `s`.
pub open spec fn lines_from(s: Seq<char>, from: int) -> Seq<Seq<char>>
    decreases s.len() - from,
    when 0 <= from <= s.len()
    via lines_from_decreases
{
    let end = index_of(s, from, '\n');
    if from >= s.len() {
        Seq::empty()
    } else if end < s.len() {
        seq![line_at(s, from, end)] + lines_from(s, end + 1)
    } else {
        seq![line_at(s, from, end)]
    }
}

#[via_fn]
proof fn lines_from_decreases(s: Seq<char>, from: int) {
    lemma_index_of(s, from, '\n');
}

/// The lines of `s`.
pub open spec fn lines(s: Seq<char>) -> Seq<Seq<char>> {
    lines_from(s, 0)
}

/// `rows` in one sequence, with `sep` between each two neighbours.
pub open spec fn joined(rows: Seq<Seq<char>>, sep: char) -> Seq<char>
    decreases rows.len(),
{
    if rows.len() == 0 {
        Seq::empty()
    } else if rows.len() == 1 {
        rows[0]
    } else {
        joined(rows.drop_last(), sep).push(sep) + rows.last()
    }
}

/// The map that inserting `entries` one after the other gives: where a
/// name comes twice, the later value stands.
pub open spec fn entries_map(entries: Seq<(Seq<char>, Seq<char>)>) -> Map<Seq<char>, Seq<char>>
    decreases entries.len(),
{
    if entries.len() == 0 {
        Map::empty()
    } else {
        entries_map(entries.drop_last()).insert(entries.last().0, entries.last().1)
    }
}

/// The character sequences that a list of rows holds.
pub open spec fn row_views(rows: Seq<Vec<char>>) -> Seq<Seq<char>> {
    rows.map_values(|row: Vec<char>| row@)
}

/// Cuts `chars` at every `c`.
pub fn split_at(chars: &Vec<char>, c: char) -> (pieces: Vec<Vec<char>>)
    ensures
        row_views(pieces@) == split(chars@, c),
{
    let mut pieces: Vec<Vec<char>> = Vec::new();
    let mut from: usize = 0;
    loop
        invariant
            from <= chars.len(),
            row_views(pieces@) + split_from(chars@, from as int, c) == split(chars@, c),
        decreases chars.len() - from,
    {
        let end: usize = find(chars, from, c);
        let piece = slice_of(chars, from, end);
        let ghost before = row_views(pieces@);
        pieces.push(piece);
        assert(row_views(pieces@) =~= before.push(piece@));
        if end < chars.len() {
            assert(row_views(pieces@) + split_from(chars@, end + 1, c) =~= before + split_from(
                chars@,
                from as int,
                c,
            ));
            from = end + 1;
        } else {
            assert(row_views(pieces@) =~= before + split_from(chars@, from as int, c));
            return pieces;
        }
    }
}

/// Cuts `chars` into its lines.
pub fn lines_of(chars: &Vec<char>) -> (rows: Vec<Vec<char>>)
    ensures
        row_views(rows@) == lines(chars@),
{
    let mut rows: Vec<Vec<char>> = Vec::new();
    let mut from: usize = 0;
    while from < chars.len()
        invariant
            from <= chars.len(),
            row_views(rows@) + lines_from(chars@, from as int) == lines(chars@),
        decreases chars.len() - from,
    {
        let end: usize = find(chars, from, '\n');
        let stop: usize = if from < end && end < chars.len() && chars[end - 1] == '\r' {
            end - 1
        } else {
            end
        };
        let row = slice_of(chars, from, stop);
        let ghost before = row_views(rows@);
        rows.push(row);
        assert(row@ == line_at(chars@, from as int, end as int));
        assert(row_views(rows@) =~= before.push(row@));
        if end < chars.len() {
            assert(row_views(rows@) + lines_from(chars@, end + 1) =~= before + lines_from(
                chars@,
                from as int,
            ));
            from = end + 1;
        } else {
            assert(row_views(rows@) =~= before + lines_from(chars@, from as int));
            assert(lines_from(chars@, chars.len() as int) =~= Seq::empty());
            from = chars.len();
        }
    }
    assert(lines_from(chars@, chars.len() as int) =~= Seq::empty());
    assert(row_views(rows@) + Seq::<Seq<char>>::empty() =~= row_views(rows@));
    rows
}

/// Joins `rows[from..]` with `sep` between each two neighbours.
pub fn join_from(rows: &Vec<Vec<char>>, from: usize, sep: char) -> (text: String)
    requires
        from <= rows.len(),
    ensures
        text@ == joined(row_views(rows@).subrange(from as int, rows.len() as int), sep),
{
    let ghost views = row_views(rows@);
    let mut text = String::new();
    let mut i: usize = from;
    while i < rows.len()
        invariant
            from <= i <= rows.len(),
            views == row_views(rows@),
            text@ == joined(views.subrange(from as int, i as int), sep),
        decreases rows.len() - i,
    {
        let ghost before = text@;
        if i > from {
            text.push(sep);
        }
        let row = &rows[i];
        let mut j: usize = 0;
        while j < row.len()
            invariant
                0 <= j <= row.len(),
                text@ == (if i > from {
                    before.push(sep)
                } else {
                    before
                }) + row@.subrange(0, j as int),
            decreases row.len() - j,
        {
            text.push(row[j]);
            j += 1;
        }
        proof {
            let next = views.subrange(from as int, i + 1);
            assert(next.drop_last() =~= views.subrange(from as int, i as int));
            assert(next.last() == row@);
            assert(row@.subrange(0, row.len() as int) =~= row@);
            if i == from {
                assert(text@ =~= row@);
            }
        }
        i += 1;
    }
    text
}

} // verus!
