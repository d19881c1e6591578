//! Writing a matrix and reading the text again gives the matrix back.
use crate::format::{cell, column_width, rendered, rendered_rows, row_text, spaces, texts};
use crate::matrix::is_grid;
use crate::parse::{reading, row_fits, values};
use crate::scalar::Scalar;
use crate::text::{
    blank, first_mark, last_mark, line_scan, lines, token_grid, trimmed, word_scan, words,
};
use vstd::prelude::*;

verus! {

/// Whether a text can stand as a token: not empty and without blanks.
pub open spec fn plain(t: Seq<char>) -> bool {
    t.len() > 0 && forall|k: int| 0 <= k < t.len() ==> !blank(#[trigger] t[k])
}

/// Whether rows of texts are a grid of tokens.
pub open spec fn plain_grid(cells: Seq<Seq<Seq<char>>>) -> bool {
    &&& cells.len() > 0
    &&& cells[0].len() > 0
    &&& forall|i: int| 0 <= i < cells.len() ==> (#[trigger] cells[i]).len() == cells[0].len()
    &&& forall|i: int, j: int|
        0 <= i < cells.len() && 0 <= j < cells[0].len() ==> plain(#[trigger] cells[i][j])
}

/// Whether a text holds blanks only.
pub open spec fn all_blank(s: Seq<char>) -> bool {
    forall|k: int| 0 <= k < s.len() ==> blank(#[trigger] s[k])
}

/// Whether a text holds no line feed.
pub open spec fn one_line(s: Seq<char>) -> bool {
    forall|k: int| 0 <= k < s.len() ==> #[trigger] s[k] != '\n'
}

/// The state of splitting at line feeds after `s` was read in state `st`.
pub open spec fn line_feed(st: (Seq<Seq<char>>, Seq<char>), s: Seq<char>) -> (
    Seq<Seq<char>>,
    Seq<char>,
)
    decreases s.len(),
{
    if s.len() == 0 {
        st
    } else {
        let (done, line) = line_feed(st, s.drop_last());
        if s.last() == '\n' {
            (done.push(line), Seq::empty())
        } else {
            (done, line.push(s.last()))
        }
    }
}

/// The state of splitting at blanks after `s` was read in state `st`.
pub open spec fn word_feed(st: (Seq<Seq<char>>, Seq<char>), s: Seq<char>) -> (
    Seq<Seq<char>>,
    Seq<char>,
)
    decreases s.len(),
{
    if s.len() == 0 {
        st
    } else {
        let (done, word) = word_feed(st, s.drop_last());
        if !blank(s.last()) {
            (done, word.push(s.last()))
        } else if word.len() > 0 {
            (done.push(word), Seq::empty())
        } else {
            (done, word)
        }
    }
}

/// The state in which nothing was read.
pub open spec fn fresh() -> (Seq<Seq<char>>, Seq<char>) {
    (Seq::empty(), Seq::empty())
}

/// Splitting the first `k` characters is reading them from the fresh state.
proof fn line_scan_is_feed(s: Seq<char>, k: nat)
    requires
        k <= s.len(),
    ensures
        line_scan(s, k) == line_feed(fresh(), s.take(k as int)),
    decreases k,
{
    if k > 0 {
        line_scan_is_feed(s, (k - 1) as nat);
        assert(s.take(k as int).drop_last() =~= s.take(k - 1));
    }
}

/// Splitting the first `k` characters is reading them from the fresh state.
proof fn word_scan_is_feed(s: Seq<char>, k: nat)
    requires
        k <= s.len(),
    ensures
        word_scan(s, k) == word_feed(fresh(), s.take(k as int)),
    decreases k,
{
    if k > 0 {
        word_scan_is_feed(s, (k - 1) as nat);
        assert(s.take(k as int).drop_last() =~= s.take(k - 1));
    }
}

/// The lines of a text are what reading it leaves, the begun line included.
proof fn lines_by_feed(s: Seq<char>)
    ensures
        lines(s) == line_feed(fresh(), s).0.push(line_feed(fresh(), s).1),
{
    line_scan_is_feed(s, s.len());
    assert(s.take(s.len() as int) =~= s);
}

/// The words of a text are what reading it leaves, with the begun word if
/// there is one.
proof fn words_by_feed(s: Seq<char>)
    ensures
        words(s) == if word_feed(fresh(), s).1.len() > 0 {
            word_feed(fresh(), s).0.push(word_feed(fresh(), s).1)
        } else {
            word_feed(fresh(), s).0
        },
{
    word_scan_is_feed(s, s.len());
    assert(s.take(s.len() as int) =~= s);
}

/// Reading two texts, one after the other, is reading them joined.
proof fn line_feed_concat(st: (Seq<Seq<char>>, Seq<char>), s: Seq<char>, t: Seq<char>)
    ensures
        line_feed(st, s + t) == line_feed(line_feed(st, s), t),
    decreases t.len(),
{
    if t.len() == 0 {
        assert(s + t =~= s);
    } else {
        line_feed_concat(st, s, t.drop_last());
        assert((s + t).drop_last() =~= s + t.drop_last());
    }
}

/// Reading two texts, one after the other, is reading them joined.
proof fn word_feed_concat(st: (Seq<Seq<char>>, Seq<char>), s: Seq<char>, t: Seq<char>)
    ensures
        word_feed(st, s + t) == word_feed(word_feed(st, s), t),
    decreases t.len(),
{
    if t.len() == 0 {
        assert(s + t =~= s);
    } else {
        word_feed_concat(st, s, t.drop_last());
        assert((s + t).drop_last() =~= s + t.drop_last());
    }
}

/// A text without line feeds is added to the line that is begun.
proof fn line_feed_one_line(st: (Seq<Seq<char>>, Seq<char>), t: Seq<char>)
    requires
        one_line(t),
    ensures
        line_feed(st, t) == (st.0, st.1 + t),
    decreases t.len(),
{
    if t.len() == 0 {
        assert(st.1 + t =~= st.1);
    } else {
        line_feed_one_line(st, t.drop_last());
        assert(t.last() == t[t.len() - 1]);
        assert((st.1 + t.drop_last()).push(t.last()) =~= st.1 + t);
    }
}

/// A line feed ends the line that is begun.
proof fn line_feed_break(st: (Seq<Seq<char>>, Seq<char>))
    ensures
        line_feed(st, seq!['\n']) == (st.0.push(st.1), Seq::<char>::empty()),
{
    let s = seq!['\n'];
    assert(s.drop_last() =~= Seq::<char>::empty());
    assert(line_feed(st, s.drop_last()) == st);
    assert(s.last() == '\n');
}

/// A token is added to the word that is begun.
proof fn word_feed_plain(st: (Seq<Seq<char>>, Seq<char>), t: Seq<char>)
    requires
        forall|k: int| 0 <= k < t.len() ==> !blank(#[trigger] t[k]),
    ensures
        word_feed(st, t) == (st.0, st.1 + t),
    decreases t.len(),
{
    if t.len() == 0 {
        assert(st.1 + t =~= st.1);
    } else {
        word_feed_plain(st, t.drop_last());
        assert(t.last() == t[t.len() - 1]);
        assert((st.1 + t.drop_last()).push(t.last()) =~= st.1 + t);
    }
}

/// Blanks end the word that is begun, if there is one.
proof fn word_feed_blanks(st: (Seq<Seq<char>>, Seq<char>), t: Seq<char>)
    requires
        all_blank(t),
    ensures
        word_feed(st, t) == if t.len() == 0 || st.1.len() == 0 {
            st
        } else {
            (st.0.push(st.1), Seq::<char>::empty())
        },
    decreases t.len(),
{
    if t.len() > 0 {
        word_feed_blanks(st, t.drop_last());
        assert(t.last() == t[t.len() - 1]);
        if st.1.len() == 0 {
            assert(st.1 =~= Seq::<char>::empty());
        }
    }
}

/// Blanks before a text do not change its words.
proof fn words_after_blanks(p: Seq<char>, x: Seq<char>)
    requires
        all_blank(p),
    ensures
        words(p + x) == words(x),
{
    words_by_feed(p + x);
    words_by_feed(x);
    word_feed_concat(fresh(), p, x);
    word_feed_blanks(fresh(), p);
}

/// Blanks after a text do not change its words.
proof fn words_before_blanks(x: Seq<char>, q: Seq<char>)
    requires
        all_blank(q),
    ensures
        words(x + q) == words(x),
{
    words_by_feed(x + q);
    words_by_feed(x);
    word_feed_concat(fresh(), x, q);
    word_feed_blanks(word_feed(fresh(), x), q);
}

/// The state of a splitter that began in the middle of a first line.
pub open spec fn carried(p: Seq<char>, st: (Seq<Seq<char>>, Seq<char>)) -> (
    Seq<Seq<char>>,
    Seq<char>,
) {
    if st.0.len() == 0 {
        (st.0, p + st.1)
    } else {
        (st.0.update(0, p + st.0[0]), st.1)
    }
}

/// Reading a text after the start `p` of a line is reading it afresh, with
/// `p` put before its first line.
proof fn line_feed_carried(p: Seq<char>, s: Seq<char>)
    ensures
        line_feed((Seq::empty(), p), s) == carried(p, line_feed(fresh(), s)),
    decreases s.len(),
{
    if s.len() == 0 {
        assert(p + Seq::<char>::empty() =~= p);
    } else {
        line_feed_carried(p, s.drop_last());
        let (d, l) = line_feed(fresh(), s.drop_last());
        if s.last() == '\n' {
            if d.len() == 0 {
                assert(d.push(p + l) =~= d.push(l).update(0, p + d.push(l)[0]));
            } else {
                assert(d.update(0, p + d[0]).push(l) =~= d.push(l).update(0, p + d.push(l)[0]));
            }
        } else {
            if d.len() == 0 {
                assert((p + l).push(s.last()) =~= p + l.push(s.last()));
            }
        }
    }
}

/// The rows of a grid as they are written, without their line feeds.
pub open spec fn row_lines(cells: Seq<Seq<Seq<char>>>, k: nat) -> Seq<Seq<char>> {
    Seq::new(k, |i: int| row_text(cells, i, cells[i].len()))
}

/// A written entry is one word on one line.
proof fn cell_is_one_word(done: Seq<Seq<char>>, t: Seq<char>, w: nat)
    requires
        plain(t),
    ensures
        word_feed((done, Seq::empty()), cell(t, w)) == (done.push(t), Seq::<char>::empty()),
        one_line(cell(t, w)),
        exists|p: int| 0 <= p < cell(t, w).len() && !blank(#[trigger] cell(t, w)[p]),
{
    let fill = if w > t.len() {
        (w - t.len()) as nat
    } else {
        0
    };
    let a = seq![' '];
    let b = spaces(fill / 2);
    let c = spaces((fill - fill / 2) as nat);
    let st = (done, Seq::<char>::empty());
    assert(cell(t, w) == (a + ((b + t) + c)) + a);
    assert(all_blank(a));
    assert(all_blank(b));
    assert(all_blank(c));
    word_feed_concat(st, a + ((b + t) + c), a);
    word_feed_concat(st, a, (b + t) + c);
    word_feed_blanks(st, a);
    word_feed_concat(st, b + t, c);
    word_feed_concat(st, b, t);
    word_feed_blanks(st, b);
    word_feed_plain(st, t);
    assert(Seq::<char>::empty() + t =~= t);
    word_feed_blanks((done, t), c);
    word_feed_blanks((done, t), a);
    word_feed_blanks((done.push(t), Seq::<char>::empty()), a);
    assert forall|k: int| 0 <= k < cell(t, w).len() implies #[trigger] cell(t, w)[k] != '\n' by {
        let x = cell(t, w)[k];
        if 1 + b.len() <= k < 1 + b.len() + t.len() {
            assert(x == t[k - 1 - b.len()]);
        } else {
            assert(x == ' ');
        }
    }
    let first = 1 + b.len() as int;
    assert(cell(t, w)[first] == t[0]);
}

/// A written row is one line whose words are its entries.
proof fn row_is_its_words(cells: Seq<Seq<Seq<char>>>, i: int, k: nat)
    requires
        plain_grid(cells),
        0 <= i < cells.len(),
        k <= cells[0].len(),
    ensures
        word_feed(fresh(), row_text(cells, i, k)) == (cells[i].take(k as int), Seq::<char>::empty()),
        one_line(row_text(cells, i, k)),
        k > 0 ==> exists|p: int|
            0 <= p < row_text(cells, i, k).len() && !blank(#[trigger] row_text(cells, i, k)[p]),
    decreases k,
{
    if k == 0 {
        assert(cells[i].take(0) =~= Seq::<Seq<char>>::empty());
    } else {
        let before = row_text(cells, i, (k - 1) as nat);
        let t = cells[i][k - 1];
        let w = column_width(cells, k - 1, cells.len());
        assert(plain(t));
        row_is_its_words(cells, i, (k - 1) as nat);
        cell_is_one_word(cells[i].take(k - 1), t, w);
        word_feed_concat(fresh(), before, cell(t, w));
        assert(cells[i].take(k - 1).push(t) =~= cells[i].take(k as int));
        let p = choose|p: int| 0 <= p < cell(t, w).len() && !blank(#[trigger] cell(t, w)[p]);
        assert(row_text(cells, i, k)[before.len() + p] == cell(t, w)[p]);
    }
}

/// The words of a written row are its entries.
proof fn words_of_row(cells: Seq<Seq<Seq<char>>>, i: int)
    requires
        plain_grid(cells),
        0 <= i < cells.len(),
    ensures
        words(row_lines(cells, cells.len())[i]) == cells[i],
{
    let row = row_text(cells, i, cells[i].len());
    row_is_its_words(cells, i, cells[0].len());
    words_by_feed(row);
    assert(cells[i].take(cells[0].len() as int) =~= cells[i]);
}

/// The lines of a written grid are its written rows; the text begins with
/// the first of them.
proof fn rendered_is_its_rows(cells: Seq<Seq<Seq<char>>>, k: nat)
    requires
        plain_grid(cells),
        k <= cells.len(),
    ensures
        line_feed(fresh(), rendered_rows(cells, k)) == (row_lines(cells, k), Seq::<char>::empty()),
        k > 0 ==> rendered_rows(cells, k).len() > row_text(cells, 0, cells[0].len()).len(),
        k > 0 ==> rendered_rows(cells, k).subrange(
            0,
            row_text(cells, 0, cells[0].len()).len() as int,
        ) == row_text(cells, 0, cells[0].len()),
    decreases k,
{
    if k == 0 {
        assert(row_lines(cells, 0) =~= Seq::<Seq<char>>::empty());
    } else {
        let above = rendered_rows(cells, (k - 1) as nat);
        let row = row_text(cells, k - 1, cells[k - 1].len());
        let first = row_text(cells, 0, cells[0].len());
        rendered_is_its_rows(cells, (k - 1) as nat);
        row_is_its_words(cells, k - 1, cells[0].len());
        let st = (row_lines(cells, (k - 1) as nat), Seq::<char>::empty());
        line_feed_concat(fresh(), above + row, seq!['\n']);
        line_feed_concat(fresh(), above, row);
        line_feed_one_line(st, row);
        line_feed_break((st.0, st.1 + row));
        assert(Seq::<char>::empty() + row =~= row);
        assert(st.0.push(row) =~= row_lines(cells, k));
        if k == 1 {
            assert(above =~= Seq::<char>::empty());
            assert(rendered_rows(cells, k).subrange(0, first.len() as int) =~= first);
        } else {
            assert(rendered_rows(cells, k).subrange(0, first.len() as int) =~= above.subrange(
                0,
                first.len() as int,
            ));
        }
    }
}

/// Before the first mark there are only blanks, and at it there is none.
proof fn first_mark_bounds(s: Seq<char>, from: nat)
    requires
        from <= s.len(),
    ensures
        from <= first_mark(s, from) <= s.len(),
        forall|k: int| from <= k < first_mark(s, from) ==> blank(#[trigger] s[k]),
        first_mark(s, from) < s.len() ==> !blank(s[first_mark(s, from) as int]),
    decreases s.len() - from,
{
    if from < s.len() && blank(s[from as int]) {
        first_mark_bounds(s, from + 1);
    }
}

/// After the last mark there are only blanks, and before it there is none.
proof fn last_mark_bounds(s: Seq<char>, to: nat)
    requires
        to <= s.len(),
    ensures
        last_mark(s, to) <= to,
        forall|k: int| last_mark(s, to) <= k < to ==> blank(#[trigger] s[k]),
        last_mark(s, to) > 0 ==> !blank(s[last_mark(s, to) - 1]),
    decreases to,
{
    if 0 < to && blank(s[to - 1]) {
        last_mark_bounds(s, (to - 1) as nat);
    }
}

/// The lines of a text that ends with a line feed, in terms of the lines
/// of its middle part, where the parts around it hold no other line feed.
proof fn lines_between(pre: Seq<char>, body: Seq<char>, post: Seq<char>, rows: Seq<Seq<char>>)
    requires
        one_line(pre),
        one_line(post),
        line_feed(fresh(), ((pre + body) + post) + seq!['\n']) == (rows, Seq::<char>::empty()),
    ensures
        rows == carried(pre, line_feed(fresh(), body)).0.push(
            carried(pre, line_feed(fresh(), body)).1 + post,
        ),
{
    let moved = carried(pre, line_feed(fresh(), body));
    line_feed_concat(fresh(), (pre + body) + post, seq!['\n']);
    line_feed_concat(fresh(), pre + body, post);
    line_feed_concat(fresh(), pre, body);
    line_feed_one_line(fresh(), pre);
    assert(Seq::<char>::empty() + pre =~= pre);
    line_feed_carried(pre, body);
    line_feed_one_line(moved, post);
    line_feed_break((moved.0, moved.1 + post));
}

/// The middle part has as many lines as the whole, with the same words.
proof fn words_between(
    pre: Seq<char>,
    body: Seq<char>,
    post: Seq<char>,
    rows: Seq<Seq<char>>,
    i: int,
)
    requires
        all_blank(pre),
        all_blank(post),
        rows == carried(pre, line_feed(fresh(), body)).0.push(
            carried(pre, line_feed(fresh(), body)).1 + post,
        ),
        0 <= i < rows.len(),
    ensures
        lines(body).len() == rows.len(),
        words(lines(body)[i]) == words(rows[i]),
{
    let st = line_feed(fresh(), body);
    lines_by_feed(body);
    if st.0.len() == 0 {
        words_after_blanks(pre, st.1);
        words_before_blanks(pre + st.1, post);
    } else if i == 0 {
        words_after_blanks(pre, st.0[0]);
    } else if i == rows.len() - 1 {
        words_before_blanks(st.1, post);
    }
}

/// Where the trimmed text of a written grid starts.
pub open spec fn body_start(cells: Seq<Seq<Seq<char>>>) -> int {
    first_mark(rendered(cells), 0) as int
}

/// Where the trimmed text of a written grid ends.
pub open spec fn body_end(cells: Seq<Seq<Seq<char>>>) -> int {
    last_mark(rendered(cells), rendered(cells).len()) as int
}

/// Trimming the text of a written grid takes blanks off its first line and
/// off its last line, and the line feed at its end.
proof fn trim_of_rendered(cells: Seq<Seq<Seq<char>>>)
    requires
        plain_grid(cells),
    ensures
        0 <= body_start(cells) < body_end(cells) <= rendered(cells).len() - 1,
        trimmed(rendered(cells)) == rendered(cells).subrange(body_start(cells), body_end(cells)),
        all_blank(rendered(cells).subrange(0, body_start(cells))),
        one_line(rendered(cells).subrange(0, body_start(cells))),
        all_blank(rendered(cells).subrange(body_end(cells), rendered(cells).len() - 1)),
        one_line(rendered(cells).subrange(body_end(cells), rendered(cells).len() - 1)),
        rendered(cells)[rendered(cells).len() - 1] == '\n',
{
    let n = cells.len();
    let width = cells[0].len();
    let text = rendered(cells);
    let first = row_text(cells, 0, width);
    let last = row_text(cells, n - 1, width);
    let above = rendered_rows(cells, (n - 1) as nat);
    rendered_is_its_rows(cells, n);
    assert(text == (above + last) + seq!['\n']);
    row_is_its_words(cells, 0, width);
    row_is_its_words(cells, n - 1, width);
    let p0 = choose|p: int| 0 <= p < first.len() && !blank(#[trigger] first[p]);
    let p1 = choose|p: int| 0 <= p < last.len() && !blank(#[trigger] last[p]);
    assert(text[p0] == text.subrange(0, first.len() as int)[p0]);
    assert(text[above.len() + p1] == last[p1]);
    let a = body_start(cells);
    let b = body_end(cells);
    first_mark_bounds(text, 0);
    last_mark_bounds(text, text.len());
    assert(text[text.len() - 1] == '\n');
    last_mark_bounds(text, (text.len() - 1) as nat);
    assert(a <= p0);
    assert(b >= above.len() + p1 + 1);
    let pre = text.subrange(0, a);
    let post = text.subrange(b, text.len() - 1);
    assert forall|k: int| 0 <= k < pre.len() implies #[trigger] pre[k] != '\n' by {
        assert(pre[k] == text.subrange(0, first.len() as int)[k]);
        assert(pre[k] == first[k]);
    }
    assert forall|k: int| 0 <= k < post.len() implies #[trigger] post[k] != '\n' by {
        assert(post[k] == text[b + k]);
        assert(text[b + k] == last[b + k - above.len()]);
    }
}

/// The tokens of a written grid of tokens are the grid.
pub proof fn rendered_splits_back(cells: Seq<Seq<Seq<char>>>)
    requires
        plain_grid(cells),
    ensures
        token_grid(rendered(cells)) == cells,
{
    let n = cells.len();
    let text = rendered(cells);
    let rows = row_lines(cells, n);
    let a = body_start(cells);
    let b = body_end(cells);
    let pre = text.subrange(0, a);
    let body = text.subrange(a, b);
    let post = text.subrange(b, text.len() - 1);
    trim_of_rendered(cells);
    rendered_is_its_rows(cells, n);
    assert(text =~= ((pre + body) + post) + seq!['\n']);
    lines_between(pre, body, post, rows);
    assert forall|i: int| 0 <= i < n implies words(#[trigger] lines(body)[i]) == cells[i] by {
        words_of_row(cells, i);
        words_between(pre, body, post, rows, i);
    }
    words_between(pre, body, post, rows, 0);
    assert(token_grid(text) =~= cells);
}

/// Whether a number is written as a token that reads as the same number.
pub open spec fn legible<T: Scalar>(x: T) -> bool {
    plain(x.text_spec()) && T::parse_spec(x.text_spec()) == Some(x)
}

/// Reading the text that a matrix is written as gives the matrix back,
/// where each of its entries is written as a token that reads as the same
/// number. This holds of every matrix that was read from a text, and so of
/// reading, writing and reading again.
pub proof fn format_then_parse<T: Scalar>(m: Seq<Seq<T>>)
    requires
        is_grid(m),
        forall|i: int, j: int| 0 <= i < m.len() && 0 <= j < m[0].len() ==> legible(#[trigger] m[i][j]),
    ensures
        reading::<T>(token_grid(rendered(texts(m))), Ok(m)),
{
    let cells = texts(m);
    assert(plain_grid(cells)) by {
        assert forall|i: int, j: int|
            0 <= i < cells.len() && 0 <= j < cells[0].len() implies plain(#[trigger] cells[i][j]) by {
            assert(legible(m[i][j]));
        }
    }
    rendered_splits_back(cells);
    assert forall|r: int| 0 <= r < cells.len() implies row_fits::<T>(cells, r) by {
        assert forall|c: int| 0 <= c < cells[r].len() implies T::parse_spec(#[trigger] cells[r][c]) is Some by {
            assert(legible(m[r][c]));
        }
    }
    assert(values::<T>(cells) =~~= m) by {
        assert forall|r: int, c: int| 0 <= r < m.len() && 0 <= c < m[0].len() implies #[trigger] values::<T>(cells)[r][c] == m[r][c] by {
            assert(legible(m[r][c]));
        }
    }
}

} // verus!
