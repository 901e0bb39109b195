//! The line-wrapping / continuation primitive.
//!
//! A logical line of already-escaped text is broken into physical lines:
//! breaks happen only at space characters, a run of non-space characters is
//! never split (it overflows its line instead), the first physical line is
//! indented by `2 * indent` spaces, every continuation line by
//! `2 * (indent + 1)` spaces, and each physical line together with its
//! indentation stays within `width - 2 * indent` columns whenever a break
//! can achieve that. Every physical line except the last ends with the
//! two-character continuation marker ` $`; the last ends with a plain line
//! break.
//!
//! The model: the text is cut into words (a maximal run of non-spaces plus
//! the run of spaces that follows it), words are dealt greedily onto lines,
//! and the lines are rendered with inter-word spacing preserved and the
//! break-point spaces dropped.

use vstd::prelude::*;

verus! {

/// A word of a logical line: a maximal run of non-space characters together
/// with the number of spaces that follow it.
pub struct Word {
    pub text: Seq<char>,
    pub ws: nat,
}

/// The index just past the run of non-space characters that starts at `i`.
pub open spec fn word_end(s: Seq<char>, i: int) -> int
    decreases s.len() - i,
{
    if i < 0 || i >= s.len() || s[i] == ' ' {
        i
    } else {
        word_end(s, i + 1)
    }
}

/// The index just past the run of spaces that starts at `i`.
pub open spec fn ws_end(s: Seq<char>, i: int) -> int
    decreases s.len() - i,
{
    if i < 0 || i >= s.len() || s[i] != ' ' {
        i
    } else {
        ws_end(s, i + 1)
    }
}

pub proof fn lemma_word_end(s: Seq<char>, i: int)
    requires
        0 <= i <= s.len(),
    ensures
        i <= word_end(s, i) <= s.len(),
        forall|j: int| i <= j < word_end(s, i) ==> s[j] != ' ',
        word_end(s, i) < s.len() ==> s[word_end(s, i)] == ' ',
    decreases s.len() - i,
{
    if i < s.len() && s[i] != ' ' {
        lemma_word_end(s, i + 1);
    }
}

pub proof fn lemma_ws_end(s: Seq<char>, i: int)
    requires
        0 <= i <= s.len(),
    ensures
        i <= ws_end(s, i) <= s.len(),
        forall|j: int| i <= j < ws_end(s, i) ==> s[j] == ' ',
        ws_end(s, i) < s.len() ==> s[ws_end(s, i)] != ' ',
        i < s.len() && s[i] == ' ' ==> ws_end(s, i) > i,
    decreases s.len() - i,
{
    if i < s.len() && s[i] == ' ' {
        lemma_ws_end(s, i + 1);
    }
}

/// The words of the suffix of `s` that starts at `i`.
pub open spec fn words_from(s: Seq<char>, i: int) -> Seq<Word>
    decreases s.len() - i,
    via words_from_decreases
{
    if i < 0 || i >= s.len() {
        Seq::empty()
    } else {
        let we = word_end(s, i);
        let se = ws_end(s, we);
        seq![Word { text: s.subrange(i, we), ws: (se - we) as nat }] + words_from(s, se)
    }
}

#[via_fn]
proof fn words_from_decreases(s: Seq<char>, i: int) {
    if 0 <= i < s.len() {
        lemma_word_end(s, i);
        lemma_ws_end(s, word_end(s, i));
    }
}

/// The words of a whole logical line.
pub open spec fn words_of(s: Seq<char>) -> Seq<Word> {
    words_from(s, 0)
}

/// The index just past the last word that still fits on the line that
/// already holds `used` columns out of `avail`, dealing words from index `j`
/// on. A word fits when its text fits; its trailing spaces are then charged
/// to the line as well, as the potential separator before the next word.
pub open spec fn line_end(ws: Seq<Word>, j: int, used: int, avail: int) -> int
    decreases ws.len() - j,
{
    if j < 0 || j >= ws.len() {
        j
    } else if used + ws[j].text.len() <= avail {
        line_end(ws, j + 1, used + ws[j].text.len() + ws[j].ws, avail)
    } else {
        j
    }
}

pub proof fn lemma_line_end(ws: Seq<Word>, j: int, used: int, avail: int)
    requires
        0 <= j <= ws.len(),
    ensures
        j <= line_end(ws, j, used, avail) <= ws.len(),
    decreases ws.len() - j,
{
    if j < ws.len() && used + ws[j].text.len() <= avail {
        lemma_line_end(ws, j + 1, used + ws[j].text.len() + ws[j].ws, avail);
    }
}

/// `n` spaces.
pub open spec fn spaces(n: int) -> Seq<char> {
    if n <= 0 {
        Seq::empty()
    } else {
        Seq::new(n as nat, |i: int| ' ')
    }
}

/// Words `j` (inclusive) to `e` (exclusive) rendered as line content: the
/// texts separated by each word's own trailing spaces, with the last word's
/// trailing spaces dropped.
pub open spec fn render_words(ws: Seq<Word>, j: int, e: int) -> Seq<char>
    decreases e - j,
{
    if j < 0 || j >= e {
        Seq::empty()
    } else if j == e - 1 {
        ws[j].text
    } else {
        ws[j].text + spaces(ws[j].ws as int) + render_words(ws, j + 1, e)
    }
}

/// The physical lines (indentation included, terminators excluded) made from
/// the words of `ws` starting at word `j`, where the current line starts
/// with `used` columns charged and `ind` spaces of indentation, and every
/// later line starts with `cont_used` columns charged and `cont_ind` spaces
/// of indentation. A line that can fit no word at all still carries one, so
/// an overlong run of non-spaces is emitted in full on its own line.
pub open spec fn plines_from(
    ws: Seq<Word>,
    j: int,
    used: int,
    cont_used: int,
    avail: int,
    ind: int,
    cont_ind: int,
) -> Seq<Seq<char>>
    decreases ws.len() - j,
    via plines_from_decreases
{
    if j < 0 || j >= ws.len() {
        Seq::empty()
    } else {
        let e0 = line_end(ws, j, used, avail);
        let e = if e0 == j {
            j + 1
        } else {
            e0
        };
        seq![spaces(ind) + render_words(ws, j, e)] + plines_from(
            ws,
            e,
            cont_used,
            cont_used,
            avail,
            cont_ind,
            cont_ind,
        )
    }
}

#[via_fn]
proof fn plines_from_decreases(
    ws: Seq<Word>,
    j: int,
    used: int,
    cont_used: int,
    avail: int,
    ind: int,
    cont_ind: int,
) {
    if 0 <= j < ws.len() {
        lemma_line_end(ws, j, used, avail);
    }
}

/// Physical lines joined into the final text: every line but the last is
/// followed by the continuation marker ` $` and a line break, the last by a
/// plain line break.
pub open spec fn join_continued(pl: Seq<Seq<char>>) -> Seq<char>
    decreases pl.len(),
{
    if pl.len() == 0 {
        Seq::empty()
    } else if pl.len() == 1 {
        pl[0] + seq!['\n']
    } else {
        pl[0] + seq![' ', '$', '\n'] + join_continued(pl.drop_first())
    }
}

/// The physical lines of the logical line `text` at indent level `indent`
/// under configured width `width`.
pub open spec fn plines_of(text: Seq<char>, indent: int, width: int) -> Seq<Seq<char>> {
    plines_from(
        words_of(text),
        0,
        2 * indent,
        2 * indent + 2,
        width - 2 * indent,
        2 * indent,
        2 * indent + 2,
    )
}

/// What the wrapping primitive appends to the buffer: the physical lines of
/// `text`, joined with continuation markers. A text without any word (empty,
/// or spaces only after the first word run — an empty text most of all)
/// still produces one line break.
pub open spec fn wrap_spec(text: Seq<char>, indent: int, width: int) -> Seq<char> {
    if words_of(text).len() == 0 {
        seq!['\n']
    } else {
        join_continued(plines_of(text, indent, width))
    }
}

/// One unfolding of `join_continued`: the head line is followed by the
/// continuation marker ` $` and a line break exactly when further lines
/// follow, and by a plain line break when it is the last.
pub proof fn lemma_join_cons(l: Seq<char>, rest: Seq<Seq<char>>)
    ensures
        join_continued(seq![l] + rest) == l + (if rest.len() == 0 {
            seq!['\n']
        } else {
            seq![' ', '$', '\n'] + join_continued(rest)
        }),
{
    let pl = seq![l] + rest;
    assert(pl[0] == l);
    if rest.len() == 0 {
        assert(pl.len() == 1);
    } else {
        assert(pl.drop_first() =~= rest);
    }
}

/// The physical lines from index `k` on, each followed by its terminator:
/// the continuation marker ` $` and a line break for every line but the
/// last, a plain line break for the last.
pub open spec fn terminated_lines(pl: Seq<Seq<char>>, k: int) -> Seq<char>
    decreases pl.len() - k,
{
    if k < 0 || k >= pl.len() {
        Seq::empty()
    } else {
        pl[k] + (if k == pl.len() - 1 {
            seq!['\n']
        } else {
            seq![' ', '$', '\n']
        }) + terminated_lines(pl, k + 1)
    }
}

proof fn lemma_terminated_shift(pl: Seq<Seq<char>>, k: int)
    requires
        1 <= k <= pl.len(),
    ensures
        terminated_lines(pl, k) == terminated_lines(pl.drop_first(), k - 1),
    decreases pl.len() - k,
{
    if k < pl.len() {
        lemma_terminated_shift(pl, k + 1);
        assert(pl.drop_first()[k - 1] == pl[k]);
    }
}

/// The joined output is each physical line followed by its terminator:
/// every physical line except the last ends with the two-character
/// continuation marker ` $` before its line break; the last ends with a
/// plain line break.
pub proof fn lemma_join_terminators(pl: Seq<Seq<char>>)
    ensures
        join_continued(pl) == terminated_lines(pl, 0),
    decreases pl.len(),
{
    if pl.len() == 1 {
        assert(terminated_lines(pl, 1) == Seq::<char>::empty());
        assert(terminated_lines(pl, 0) =~= pl[0] + seq!['\n']);
    } else if pl.len() > 1 {
        lemma_join_terminators(pl.drop_first());
        lemma_terminated_shift(pl, 1);
        assert(terminated_lines(pl, 0) =~= pl[0] + seq![' ', '$', '\n'] + terminated_lines(
            pl,
            1,
        ));
    }
}

/// The total width of a sequence of words: every text together with every
/// run of trailing spaces.
pub open spec fn words_width(ws: Seq<Word>) -> int
    decreases ws.len(),
{
    if ws.len() == 0 {
        0
    } else {
        ws[0].text.len() + ws[0].ws + words_width(ws.drop_first())
    }
}

proof fn lemma_words_width_nonneg(ws: Seq<Word>)
    ensures
        words_width(ws) >= 0,
    decreases ws.len(),
{
    if ws.len() > 0 {
        lemma_words_width_nonneg(ws.drop_first());
    }
}

/// The words of a text partition it: their widths add up to its length.
pub proof fn lemma_words_partition(s: Seq<char>, i: int)
    requires
        0 <= i <= s.len(),
    ensures
        words_width(words_from(s, i)) == s.len() - i,
    decreases s.len() - i,
{
    if i < s.len() {
        let we = word_end(s, i);
        let se = ws_end(s, we);
        lemma_word_end(s, i);
        lemma_ws_end(s, we);
        lemma_words_partition(s, se);
        let w = Word { text: s.subrange(i, we), ws: (se - we) as nat };
        let rest = words_from(s, se);
        assert((seq![w] + rest).drop_first() =~= rest);
    }
}

/// A line that starts with columns to spare and whose words all fit takes
/// them all.
proof fn lemma_line_end_all(ws: Seq<Word>, j: int, used: int, avail: int)
    requires
        0 <= j <= ws.len(),
        used + words_width(ws.skip(j)) <= avail,
    ensures
        line_end(ws, j, used, avail) == ws.len(),
    decreases ws.len() - j,
{
    if j < ws.len() {
        assert(ws.skip(j).drop_first() =~= ws.skip(j + 1));
        assert(ws.skip(j)[0] == ws[j]);
        lemma_words_width_nonneg(ws.skip(j + 1));
        lemma_line_end_all(ws, j + 1, used + ws[j].text.len() + ws[j].ws, avail);
    }
}

/// When the logical line, indentation included on both sides of the wrap
/// arithmetic, stays within the configured width, wrapping never introduces
/// a continuation marker: the output is a single indented physical line and
/// its line break.
pub proof fn lemma_wrap_no_continuation(text: Seq<char>, indent: int, width: int)
    requires
        0 <= indent,
        4 * indent + text.len() <= width,
        words_of(text).len() > 0,
    ensures
        wrap_spec(text, indent, width) == spaces(2 * indent) + render_words(
            words_of(text),
            0,
            words_of(text).len() as int,
        ) + seq!['\n'],
{
    let ws = words_of(text);
    lemma_words_partition(text, 0);
    assert(ws.skip(0) =~= ws);
    lemma_line_end_all(ws, 0, 2 * indent, width - 2 * indent);
    let line = spaces(2 * indent) + render_words(ws, 0, ws.len() as int);
    let pl = plines_of(text, indent, width);
    assert(pl == seq![line] + plines_from(
        ws,
        ws.len() as int,
        2 * indent + 2,
        2 * indent + 2,
        width - 2 * indent,
        2 * indent + 2,
        2 * indent + 2,
    ));
    assert(pl =~= seq![line]);
    assert(join_continued(pl) == pl[0] + seq!['\n']);
    assert(wrap_spec(text, indent, width) == line + seq!['\n']);
}

/// A physical line that carries exactly `ci` spaces of leading indentation,
/// followed by something other than a space.
pub open spec fn cont_line_shape(l: Seq<char>, ci: int) -> bool {
    &&& l.len() > ci
    &&& forall|m: int| 0 <= m < ci ==> l[m] == ' '
    &&& l[ci] != ' '
}

/// No character of any word's text is a space.
proof fn lemma_words_text_nonspace(s: Seq<char>, i: int)
    requires
        0 <= i <= s.len(),
    ensures
        forall|k: int, m: int|
            0 <= k < words_from(s, i).len() && 0 <= m < words_from(s, i)[k].text.len()
                ==> words_from(s, i)[k].text[m] != ' ',
    decreases s.len() - i,
{
    if i < s.len() {
        let we = word_end(s, i);
        let se = ws_end(s, we);
        lemma_word_end(s, i);
        lemma_ws_end(s, we);
        lemma_words_text_nonspace(s, se);
        let w = Word { text: s.subrange(i, we), ws: (se - we) as nat };
        let rest = words_from(s, se);
        assert forall|k: int, m: int|
            0 <= k < words_from(s, i).len() && 0 <= m < words_from(s, i)[k].text.len() implies
            words_from(s, i)[k].text[m] != ' ' by {
            if k == 0 {
                assert(words_from(s, i)[0] == w);
                assert(w.text[m] == s[i + m]);
            } else {
                assert(words_from(s, i)[k] == rest[k - 1]);
            }
        }
    }
}

/// Every word but the first has a non-empty text: it begins where a run of
/// spaces ended.
proof fn lemma_words_text_nonempty(s: Seq<char>, i: int)
    requires
        0 <= i <= s.len(),
    ensures
        forall|k: int| 1 <= k < words_from(s, i).len() ==> words_from(s, i)[k].text.len() > 0,
        i < s.len() && s[i] != ' ' ==> words_from(s, i).len() > 0 && words_from(
            s,
            i,
        )[0].text.len() > 0,
    decreases s.len() - i,
{
    if i < s.len() {
        let we = word_end(s, i);
        let se = ws_end(s, we);
        lemma_word_end(s, i);
        lemma_ws_end(s, we);
        lemma_words_text_nonempty(s, se);
        let w = Word { text: s.subrange(i, we), ws: (se - we) as nat };
        let rest = words_from(s, se);
        assert forall|k: int| 1 <= k < words_from(s, i).len() implies words_from(
            s,
            i,
        )[k].text.len() > 0 by {
            assert(words_from(s, i)[k] == rest[k - 1]);
            if k == 1 {
                assert(se < s.len() && s[se] != ' ');
            }
        }
    }
}

/// The rendering of a non-empty word range begins with the first word's
/// text.
proof fn lemma_render_head(ws: Seq<Word>, j: int, e: int)
    requires
        0 <= j < e,
        j < ws.len(),
    ensures
        render_words(ws, j, e).len() >= ws[j].text.len(),
        forall|m: int|
            0 <= m < ws[j].text.len() ==> render_words(ws, j, e)[m] == ws[j].text[m],
{
}

/// Every physical line from a continuation start has the continuation
/// shape: its indentation, then a non-space.
proof fn lemma_plines_cont_shape(
    ws: Seq<Word>,
    j: int,
    used: int,
    cont_used: int,
    avail: int,
    ci: int,
)
    requires
        1 <= j <= ws.len(),
        0 <= ci,
        forall|k: int, m: int|
            0 <= k < ws.len() && 0 <= m < ws[k].text.len() ==> ws[k].text[m] != ' ',
        forall|k: int| 1 <= k < ws.len() ==> ws[k].text.len() > 0,
    ensures
        forall|k: int|
            0 <= k < plines_from(ws, j, used, cont_used, avail, ci, ci).len()
                ==> cont_line_shape(plines_from(ws, j, used, cont_used, avail, ci, ci)[k], ci),
    decreases ws.len() - j,
{
    if j < ws.len() {
        let e0 = line_end(ws, j, used, avail);
        let e = if e0 == j {
            j + 1
        } else {
            e0
        };
        lemma_line_end(ws, j, used, avail);
        let line = spaces(ci) + render_words(ws, j, e);
        let rest = plines_from(ws, e, cont_used, cont_used, avail, ci, ci);
        lemma_render_head(ws, j, e);
        assert(cont_line_shape(line, ci)) by {
            assert(ws[j].text.len() > 0);
            assert(line[ci] == render_words(ws, j, e)[0]);
            assert(render_words(ws, j, e)[0] == ws[j].text[0]);
            assert(forall|m: int| 0 <= m < ci ==> line[m] == spaces(ci)[m] && spaces(ci)[m] == ' ');
        }
        lemma_plines_cont_shape(ws, e, cont_used, cont_used, avail, ci);
        assert forall|k: int|
            0 <= k < plines_from(ws, j, used, cont_used, avail, ci, ci).len() implies
            cont_line_shape(plines_from(ws, j, used, cont_used, avail, ci, ci)[k], ci) by {
            if k == 0 {
                assert(plines_from(ws, j, used, cont_used, avail, ci, ci)[0] == line);
            } else {
                assert(plines_from(ws, j, used, cont_used, avail, ci, ci)[k] == rest[k - 1]);
            }
        }
    }
}

/// Once wrapping occurs, every continuation line's leading indentation is
/// exactly `2 * (indent + 1)` spaces: that many spaces, then a non-space.
/// (That every physical line except the last is followed by the ` $` marker
/// is what `join_continued` states, one unfolding at a time — see
/// `lemma_join_cons`.)
pub proof fn lemma_wrap_continuation_indent(text: Seq<char>, indent: int, width: int)
    requires
        0 <= indent,
    ensures
        forall|k: int|
            1 <= k < plines_of(text, indent, width).len() ==> cont_line_shape(
                plines_of(text, indent, width)[k],
                2 * indent + 2,
            ),
{
    let ws = words_of(text);
    lemma_words_text_nonspace(text, 0);
    lemma_words_text_nonempty(text, 0);
    if ws.len() > 0 {
        let avail = width - 2 * indent;
        let ci = 2 * indent + 2;
        let e0 = line_end(ws, 0, 2 * indent, avail);
        let e = if e0 == 0 {
            1
        } else {
            e0
        };
        lemma_line_end(ws, 0, 2 * indent, avail);
        let line = spaces(2 * indent) + render_words(ws, 0, e);
        let rest = plines_from(ws, e, ci, ci, avail, ci, ci);
        if e < ws.len() {
            lemma_plines_cont_shape(ws, e, ci, ci, avail, ci);
        }
        assert forall|k: int| 1 <= k < plines_of(text, indent, width).len() implies
            cont_line_shape(plines_of(text, indent, width)[k], ci) by {
            assert(plines_of(text, indent, width)[k] == rest[k - 1]);
        }
    }
}

/// The executable form of a word.
struct WordBuf {
    text: Vec<char>,
    ws: usize,
}

impl View for WordBuf {
    type V = Word;

    closed spec fn view(&self) -> Word {
        Word { text: self.text@, ws: self.ws as nat }
    }
}

/// The words of a sequence of executable words.
spec fn word_views(ws: Seq<WordBuf>) -> Seq<Word> {
    ws.map_values(|w: WordBuf| w@)
}

/// Cuts a logical line into its words.
fn tokenize(s: &Vec<char>) -> (out: Vec<WordBuf>)
    ensures
        word_views(out@) == words_of(s@),
{
    let n = s.len();
    let mut out: Vec<WordBuf> = Vec::new();
    let mut i: usize = 0;
    while i < n
        invariant
            i <= n,
            n == s@.len(),
            word_views(out@) + words_from(s@, i as int) == words_of(s@),
        decreases n - i,
    {
        let mut j = i;
        while j < n && s[j] != ' '
            invariant
                i <= j <= n,
                n == s@.len(),
                word_end(s@, i as int) == word_end(s@, j as int),
            decreases n - j,
        {
            j = j + 1;
        }
        proof {
            assert(word_end(s@, i as int) == j as int);
        }
        let mut text: Vec<char> = Vec::new();
        let mut k = i;
        while k < j
            invariant
                i <= k <= j <= n,
                n == s@.len(),
                text@ == s@.subrange(i as int, k as int),
            decreases j - k,
        {
            text.push(s[k]);
            k = k + 1;
            proof {
                assert(text@ =~= s@.subrange(i as int, k as int));
            }
        }
        let mut m = j;
        while m < n && s[m] == ' '
            invariant
                j <= m <= n,
                n == s@.len(),
                ws_end(s@, j as int) == ws_end(s@, m as int),
            decreases n - m,
        {
            m = m + 1;
        }
        proof {
            assert(ws_end(s@, j as int) == m as int);
        }
        let ghost pre = word_views(out@);
        out.push(WordBuf { text, ws: m - j });
        proof {
            let w = Word { text: s@.subrange(i as int, j as int), ws: (m - j) as nat };
            assert(word_views(out@) =~= pre + seq![w]);
            assert(words_from(s@, i as int) == seq![w] + words_from(s@, m as int));
            assert((pre + seq![w]) + words_from(s@, m as int) =~= pre + (seq![w] + words_from(
                s@,
                m as int,
            )));
        }
        i = m;
    }
    out
}

/// Appends `n` spaces to the buffer.
fn push_spaces(buf: &mut Vec<char>, n: usize)
    ensures
        final(buf)@ == old(buf)@ + spaces(n as int),
{
    let mut k: usize = 0;
    while k < n
        invariant
            k <= n,
            buf@ == old(buf)@ + spaces(k as int),
        decreases n - k,
    {
        buf.push(' ');
        k = k + 1;
        proof {
            assert(buf@ =~= old(buf)@ + spaces(k as int));
        }
    }
}

/// Appends the wrapped physical lines of the logical line `text` at indent
/// level `indent` to the buffer, under the configured width `width`.
pub fn append_wrapped(buf: &mut Vec<char>, text: &Vec<char>, indent: usize, width: usize)
    requires
        2 * indent <= width,
        width + 2 <= usize::MAX,
    ensures
        final(buf)@ == old(buf)@ + wrap_spec(text@, indent as int, width as int),
{
    let words = tokenize(text);
    let ghost ws = words_of(text@);
    let n = words.len();
    if n == 0 {
        buf.push('\n');
        proof {
            assert(buf@ =~= old(buf)@ + wrap_spec(text@, indent as int, width as int));
        }
        return ;
    }
    let avail: usize = width - 2 * indent;
    let cont_used: usize = 2 * indent + 2;
    let mut j: usize = 0;
    let mut used0: usize = 2 * indent;
    let ghost gused0: int = 2 * indent;
    let mut ind: usize = 2 * indent;
    while j < n
        invariant
            0 < n == ws.len(),
            n == words@.len(),
            word_views(words@) == ws,
            j <= n,
            avail == width - 2 * indent,
            cont_used == 2 * indent + 2,
            width + 2 <= usize::MAX,
            gused0 <= avail ==> used0 == gused0,
            gused0 > avail ==> used0 > avail,
            used0 <= width + 2,
            buf@ + join_continued(
                plines_from(
                    ws,
                    j as int,
                    gused0,
                    cont_used as int,
                    avail as int,
                    ind as int,
                    cont_used as int,
                ),
            ) == old(buf)@ + wrap_spec(text@, indent as int, width as int),
        decreases n - j,
    {
        let mut e: usize = j;
        let mut used: usize = used0;
        let ghost mut gused: int = gused0;
        while e < n && used <= avail && words[e].text.len() <= avail - used
            invariant
                j <= e <= n,
                n == ws.len(),
                n == words@.len(),
                word_views(words@) == ws,
                gused <= avail ==> used == gused,
                gused > avail ==> used > avail,
                used <= width + 2,
                avail <= width,
                width + 2 <= usize::MAX,
                line_end(ws, j as int, gused0, avail as int) == line_end(
                    ws,
                    e as int,
                    gused,
                    avail as int,
                ),
            decreases n - e,
        {
            let t = words[e].text.len();
            let w = words[e].ws;
            proof {
                assert(ws[e as int] == words@[e as int]@);
                assert(line_end(ws, e as int, gused, avail as int) == line_end(
                    ws,
                    e as int + 1,
                    gused + t + w,
                    avail as int,
                ));
            }
            if w <= avail - (used + t) {
                used = used + t + w;
            } else {
                used = avail + 1;
            }
            proof {
                gused = gused + t + w;
            }
            e = e + 1;
        }
        proof {
            assert(line_end(ws, e as int, gused, avail as int) == e as int);
        }
        let e_line: usize = if e == j {
            j + 1
        } else {
            e
        };
        let ghost line_start = buf@;
        push_spaces(buf, ind);
        let mut k: usize = j;
        while k < e_line
            invariant
                j <= k <= e_line <= n,
                n == ws.len(),
                n == words@.len(),
                word_views(words@) == ws,
                buf@ + render_words(ws, k as int, e_line as int) == line_start + spaces(
                    ind as int,
                ) + render_words(ws, j as int, e_line as int),
            decreases e_line - k,
        {
            let ghost pre = buf@;
            buf.extend_from_slice(words[k].text.as_slice());
            proof {
                assert(ws[k as int] == words@[k as int]@);
                assert(buf@ =~= pre + ws[k as int].text);
            }
            if k + 1 < e_line {
                let ghost pre2 = buf@;
                push_spaces(buf, words[k].ws);
                proof {
                    assert(buf@ =~= pre + (ws[k as int].text + spaces(ws[k as int].ws as int)));
                    assert(render_words(ws, k as int, e_line as int) == ws[k as int].text + spaces(
                        ws[k as int].ws as int,
                    ) + render_words(ws, k as int + 1, e_line as int));
                    assert(buf@ + render_words(ws, k as int + 1, e_line as int) =~= pre
                        + render_words(ws, k as int, e_line as int));
                }
            } else {
                proof {
                    assert(render_words(ws, k as int, e_line as int) == ws[k as int].text);
                    assert(buf@ + render_words(ws, k as int + 1, e_line as int) =~= pre
                        + render_words(ws, k as int, e_line as int));
                }
            }
            k = k + 1;
        }
        let ghost line = spaces(ind as int) + render_words(ws, j as int, e_line as int);
        proof {
            assert(buf@ =~= line_start + line);
        }
        let ghost rest = plines_from(
            ws,
            e_line as int,
            cont_used as int,
            cont_used as int,
            avail as int,
            cont_used as int,
            cont_used as int,
        );
        proof {
            assert(plines_from(
                ws,
                j as int,
                gused0,
                cont_used as int,
                avail as int,
                ind as int,
                cont_used as int,
            ) == seq![line] + rest);
            lemma_join_cons(line, rest);
        }
        if e_line >= n {
            buf.push('\n');
            proof {
                assert(rest.len() == 0);
                assert(buf@ =~= line_start + (line + seq!['\n']));
            }
        } else {
            buf.push(' ');
            buf.push('$');
            buf.push('\n');
            proof {
                assert(rest.len() > 0);
                assert(buf@ =~= line_start + (line + seq![' ', '$', '\n']));
                assert(buf@ + join_continued(rest) =~= line_start + (line + (seq![' ', '$', '\n']
                    + join_continued(rest))));
            }
        }
        j = e_line;
        used0 = cont_used;
        proof {
            gused0 = cont_used as int;
        }
        ind = cont_used;
    }
}

} // verus!
