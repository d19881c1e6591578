//! A text as rows of tokens: one row per line, the tokens of a row separated
//! by blanks.
use vstd::prelude::*;

verus! {

/// Whether a character is white space: one of the characters U+0009 to
/// U+000D, U+0020, U+0085, U+00A0, U+1680, U+2000 to U+200A, U+2028, U+2029,
/// U+202F, U+205F and U+3000.
pub open spec fn blank(c: char) -> bool {
    let n = c as u32;
    ||| 0x09 <= n <= 0x0d
    ||| n == 0x20
    ||| n == 0x85
    ||| n == 0xa0
    ||| n == 0x1680
    ||| 0x2000 <= n <= 0x200a
    ||| n == 0x2028
    ||| n == 0x2029
    ||| n == 0x202f
    ||| n == 0x205f
    ||| n == 0x3000
}

/// The index of the first character at or after `from` that is not blank, or
/// the length of `s` where there is none.
pub open spec fn first_mark(s: Seq<char>, from: nat) -> nat
    decreases s.len() - from,
{
    if from < s.len() && blank(s[from as int]) {
        first_mark(s, from + 1)
    } else {
        from
    }
}

/// The index after the last character before `to` that is not blank, or zero
/// where there is none.
pub open spec fn last_mark(s: Seq<char>, to: nat) -> nat
    decreases to,
{
    if 0 < to <= s.len() && blank(s[to - 1]) {
        last_mark(s, (to - 1) as nat)
    } else {
        to
    }
}

/// The text without the blanks at its start and at its end.
pub open spec fn trimmed(s: Seq<char>) -> Seq<char> {
    let from = first_mark(s, 0);
    if from >= s.len() {
        Seq::empty()
    } else {
        s.subrange(from as int, last_mark(s, s.len()) as int)
    }
}

/// The state of splitting the first `k` characters of `s` at line feeds: the
/// lines that are complete, and the line that is begun.
pub open spec fn line_scan(s: Seq<char>, k: nat) -> (Seq<Seq<char>>, Seq<char>)
    decreases k,
{
    if k == 0 {
        (Seq::empty(), Seq::empty())
    } else {
        let (done, line) = line_scan(s, (k - 1) as nat);
        if s[k - 1] == '\n' {
            (done.push(line), Seq::empty())
        } else {
            (done, line.push(s[k - 1]))
        }
    }
}

/// The lines of a text: the pieces between its line feeds, empty ones
/// included. A text without a line feed is one line.
pub open spec fn lines(s: Seq<char>) -> Seq<Seq<char>> {
    let (done, line) = line_scan(s, s.len());
    done.push(line)
}

/// The state of splitting the first `k` characters of `s` at blanks: the
/// words that are complete, and the word that is begun, which is empty
/// between words.
pub open spec fn word_scan(s: Seq<char>, k: nat) -> (Seq<Seq<char>>, Seq<char>)
    decreases k,
{
    if k == 0 {
        (Seq::empty(), Seq::empty())
    } else {
        let (done, word) = word_scan(s, (k - 1) as nat);
        if !blank(s[k - 1]) {
            (done, word.push(s[k - 1]))
        } else if word.len() > 0 {
            (done.push(word), Seq::empty())
        } else {
            (done, word)
        }
    }
}

/// The words of a text: its longest runs of characters that are not blank.
pub open spec fn words(s: Seq<char>) -> Seq<Seq<char>> {
    let (done, word) = word_scan(s, s.len());
    if word.len() > 0 {
        done.push(word)
    } else {
        done
    }
}

/// The tokens of a text, row by row: the words of each line of the trimmed
/// text.
pub open spec fn token_grid(s: Seq<char>) -> Seq<Seq<Seq<char>>> {
    Seq::new(lines(trimmed(s)).len(), |i: int| words(lines(trimmed(s))[i]))
}

/// The pieces of `s` that a sequence of index ranges cuts out.
pub open spec fn pieces(s: Seq<char>, ranges: Seq<(usize, usize)>) -> Seq<Seq<char>> {
    Seq::new(ranges.len(), |k: int| s.subrange(ranges[k].0 as int, ranges[k].1 as int))
}

/// What rows of strings hold, as rows of character sequences.
pub open spec fn grid_view(rows: Seq<Vec<String>>) -> Seq<Seq<Seq<char>>> {
    Seq::new(rows.len(), |i: int| Seq::new(rows[i]@.len(), |j: int| rows[i][j]@))
}

/// Whether a character is white space.
pub fn is_blank(c: char) -> (r: bool)
    ensures
        r == blank(c),
{
    let n = c as u32;
    (0x09 <= n && n <= 0x0d) || n == 0x20 || n == 0x85 || n == 0xa0 || n == 0x1680 || (0x2000 <= n
        && n <= 0x200a) || n == 0x2028 || n == 0x2029 || n == 0x202f || n == 0x205f || n == 0x3000
}

/// The characters of a text.
fn chars_of(text: &str) -> (r: Vec<char>)
    ensures
        r@ == text@,
{
    let mut out: Vec<char> = Vec::new();
    for c in it: text.chars()
        invariant
            it.seq() == text@,
            out@ == it.seq().take(it.index()),
    {
        out.push(c);
        assert(out@ =~= it.seq().take(it.index() + 1));
    }
    assert(text@.take(text@.len() as int) =~= text@);
    out
}

/// Where the trimmed text starts and ends.
fn trim_bounds(chars: &Vec<char>) -> (r: (usize, usize))
    ensures
        r.0 <= r.1 <= chars.len(),
        chars@.subrange(r.0 as int, r.1 as int) == trimmed(chars@),
{
    let n = chars.len();
    let mut from: usize = 0;
    while from < n && is_blank(chars[from])
        invariant
            from <= n,
            n == chars.len(),
            first_mark(chars@, from as nat) == first_mark(chars@, 0),
        decreases n - from,
    {
        from += 1;
    }
    if from == n {
        assert(chars@.subrange(n as int, n as int) =~= Seq::<char>::empty());
        return (n, n);
    }
    let mut to: usize = n;
    while to > from && is_blank(chars[to - 1])
        invariant
            from < to <= n,
            n == chars.len(),
            !blank(chars@[from as int]),
            last_mark(chars@, to as nat) == last_mark(chars@, n as nat),
        decreases to,
    {
        to -= 1;
    }
    (from, to)
}

/// The ranges of the lines of `chars[from..to]`.
fn line_ranges(chars: &Vec<char>, from: usize, to: usize) -> (r: Vec<(usize, usize)>)
    requires
        from <= to <= chars.len(),
    ensures
        pieces(chars@, r@) == lines(chars@.subrange(from as int, to as int)),
        forall|k: int| 0 <= k < r.len() ==> from <= (#[trigger] r[k]).0 <= r[k].1 <= to,
{
    let ghost s = chars@.subrange(from as int, to as int);
    let mut out: Vec<(usize, usize)> = Vec::new();
    let mut start: usize = from;
    let mut i: usize = from;
    while i < to
        invariant
            from <= start <= i <= to <= chars.len(),
            s == chars@.subrange(from as int, to as int),
            pieces(chars@, out@) == line_scan(s, (i - from) as nat).0,
            chars@.subrange(start as int, i as int) == line_scan(s, (i - from) as nat).1,
            forall|k: int| 0 <= k < out.len() ==> from <= (#[trigger] out[k]).0 <= out[k].1 <= to,
        decreases to - i,
    {
        let ghost before = line_scan(s, (i - from) as nat);
        assert(s[i - from] == chars@[i as int]);
        if chars[i] == '\n' {
            out.push((start, i));
            assert(pieces(chars@, out@) =~= before.0.push(before.1));
            start = i + 1;
            assert(chars@.subrange(start as int, i + 1) =~= Seq::<char>::empty());
        } else {
            assert(chars@.subrange(start as int, i + 1) =~= before.1.push(chars@[i as int]));
        }
        i += 1;
    }
    let ghost last = line_scan(s, (to - from) as nat);
    out.push((start, to));
    assert(pieces(chars@, out@) =~= last.0.push(last.1));
    out
}

/// The ranges of the words of `chars[from..to]`.
fn word_ranges(chars: &Vec<char>, from: usize, to: usize) -> (r: Vec<(usize, usize)>)
    requires
        from <= to <= chars.len(),
    ensures
        pieces(chars@, r@) == words(chars@.subrange(from as int, to as int)),
        forall|k: int| 0 <= k < r.len() ==> from <= (#[trigger] r[k]).0 <= r[k].1 <= to,
{
    let ghost s = chars@.subrange(from as int, to as int);
    let mut out: Vec<(usize, usize)> = Vec::new();
    let mut start: usize = from;
    let mut inside = false;
    let mut i: usize = from;
    while i < to
        invariant
            from <= start <= i <= to <= chars.len(),
            s == chars@.subrange(from as int, to as int),
            pieces(chars@, out@) == word_scan(s, (i - from) as nat).0,
            inside ==> start < i && chars@.subrange(start as int, i as int) == word_scan(
                s,
                (i - from) as nat,
            ).1,
            !inside ==> word_scan(s, (i - from) as nat).1.len() == 0,
            forall|k: int| 0 <= k < out.len() ==> from <= (#[trigger] out[k]).0 <= out[k].1 <= to,
        decreases to - i,
    {
        let ghost before = word_scan(s, (i - from) as nat);
        assert(s[i - from] == chars@[i as int]);
        if !is_blank(chars[i]) {
            if !inside {
                start = i;
                inside = true;
                assert(before.1 =~= Seq::<char>::empty());
            }
            assert(chars@.subrange(start as int, i + 1) =~= before.1.push(chars@[i as int]));
        } else if inside {
            out.push((start, i));
            assert(pieces(chars@, out@) =~= before.0.push(before.1));
            inside = false;
        }
        i += 1;
    }
    if inside {
        let ghost last = word_scan(s, (to - from) as nat);
        out.push((start, to));
        assert(pieces(chars@, out@) =~= last.0.push(last.1));
    }
    out
}

/// The tokens of a text, row by row. There is at least one row.
pub fn tokenize(text: &str) -> (r: Vec<Vec<String>>)
    ensures
        grid_view(r@) == token_grid(text@),
        r.len() > 0,
{
    let chars = chars_of(text);
    let (from, to) = trim_bounds(&chars);
    let rows = line_ranges(&chars, from, to);
    let ghost all = lines(trimmed(text@));
    let mut out: Vec<Vec<String>> = Vec::new();
    let mut i: usize = 0;
    while i < rows.len()
        invariant
            i <= rows.len(),
            chars@ == text@,
            all == lines(trimmed(text@)),
            pieces(chars@, rows@) == all,
            forall|k: int| 0 <= k < rows.len() ==> (#[trigger] rows[k]).0 <= rows[k].1 <= chars.len(),
            out.len() == i,
            forall|k: int|
                0 <= k < i ==> Seq::new((#[trigger] out[k])@.len(), |j: int| out[k][j]@) == words(
                    all[k],
                ),
        decreases rows.len() - i,
    {
        let (a, b) = rows[i];
        assert(pieces(chars@, rows@)[i as int] == chars@.subrange(a as int, b as int));
        let found = word_ranges(&chars, a, b);
        let ghost want = words(all[i as int]);
        let mut row: Vec<String> = Vec::new();
        let mut j: usize = 0;
        while j < found.len()
            invariant
                j <= found.len(),
                chars@ == text@,
                pieces(chars@, found@) == want,
                forall|k: int|
                    0 <= k < found.len() ==> (#[trigger] found[k]).0 <= found[k].1 <= chars.len(),
                row.len() == j,
                forall|k: int| 0 <= k < j ==> (#[trigger] row[k])@ == want[k],
            decreases found.len() - j,
        {
            let (c, d) = found[j];
            assert(pieces(chars@, found@)[j as int] == chars@.subrange(c as int, d as int));
            row.push(text.substring_char(c, d).to_owned());
            j += 1;
        }
        assert(Seq::new(row@.len(), |j: int| row[j]@) =~= want);
        out.push(row);
        i += 1;
    }
    assert(grid_view(out@) =~= token_grid(text@));
    assert(out.len() == pieces(chars@, rows@).len());
    out
}

} // verus!
