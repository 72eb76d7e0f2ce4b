use vstd::prelude::*;

use crate::color::{Rgb, Rgba};

verus! {

/// One token of a line as the tokenizer styles it: a piece of the line's text
/// and the foreground colour chosen for it.
pub struct StyledPiece {
    pub fg: Rgba,
    pub text: String,
}

/// One line of a document (its newline included) with the tokens of that line.
/// A line whose tokenization failed carries no tokens.
pub struct TokenizedLine {
    pub text: String,
    pub pieces: Vec<StyledPiece>,
}

/// Paint characters `start..end` of the document with `color`.
#[derive(Debug, Clone, Copy, PartialEq, Eq, Structural)]
pub struct StyleSpan {
    pub start: usize,
    pub end: usize,
    pub color: Rgb,
}

/// The smaller of two integers.
pub open spec fn min_int(a: int, b: int) -> int {
    if a <= b {
        a
    } else {
        b
    }
}

/// Characters in the first `k` pieces.
pub open spec fn pieces_len(pieces: Seq<StyledPiece>, k: int) -> int
    decreases k,
{
    if k <= 0 {
        0
    } else {
        pieces_len(pieces, k - 1) + pieces[k - 1].text@.len()
    }
}

/// The texts of the first `k` pieces, joined.
pub open spec fn pieces_text(pieces: Seq<StyledPiece>, k: int) -> Seq<char>
    decreases k,
{
    if k <= 0 {
        Seq::empty()
    } else {
        pieces_text(pieces, k - 1) + pieces[k - 1].text@
    }
}

/// A line's pieces lie one after another from the start of the line.
pub open spec fn pieces_in_place(line: TokenizedLine) -> bool {
    pieces_text(line.pieces@, line.pieces@.len() as int).is_prefix_of(line.text@)
}

/// Characters in the first `n` lines: where line `n` starts in the document.
pub open spec fn lines_len(lines: Seq<TokenizedLine>, n: int) -> int
    decreases n,
{
    if n <= 0 {
        0
    } else {
        lines_len(lines, n - 1) + lines[n - 1].text@.len()
    }
}

/// The text of the first `n` lines, joined.
pub open spec fn joined_text(lines: Seq<TokenizedLine>, n: int) -> Seq<char>
    decreases n,
{
    if n <= 0 {
        Seq::empty()
    } else {
        joined_text(lines, n - 1) + lines[n - 1].text@
    }
}

/// The span that piece `k` of a line starting at character `base` yields when
/// ranges are clamped to `total` (the end of its line, or of the document when
/// that comes first): kept only when the piece is non-empty, visible, and
/// non-empty after clamping.
pub open spec fn piece_span(base: int, pieces: Seq<StyledPiece>, k: int, total: int) -> Option<
    StyleSpan,
> {
    let p = pieces[k];
    let s = min_int(base + pieces_len(pieces, k), total);
    let e = min_int(base + pieces_len(pieces, k) + p.text@.len(), total);
    if p.text@.len() > 0 && p.fg.a > 0 && s < e {
        Some(StyleSpan { start: s as usize, end: e as usize, color: p.fg.spec_opaque() })
    } else {
        None
    }
}

/// The span, if any, as a sequence of zero or one spans.
pub open spec fn option_seq(o: Option<StyleSpan>) -> Seq<StyleSpan> {
    match o {
        Some(x) => seq![x],
        None => Seq::empty(),
    }
}

/// The spans of the first `k` pieces of a line starting at character `base`.
pub open spec fn line_spans(base: int, pieces: Seq<StyledPiece>, k: int, total: int) -> Seq<
    StyleSpan,
>
    decreases k,
{
    if k <= 0 {
        Seq::empty()
    } else {
        line_spans(base, pieces, k - 1, total) + option_seq(piece_span(base, pieces, k - 1, total))
    }
}

/// The spans of the first `n` lines of a document of `total` characters. Each
/// line's pieces are clamped to the end of that line as well as to the document.
pub open spec fn doc_spans(lines: Seq<TokenizedLine>, n: int, total: int) -> Seq<StyleSpan>
    decreases n,
{
    if n <= 0 {
        Seq::empty()
    } else {
        doc_spans(lines, n - 1, total) + line_spans(
            lines_len(lines, n - 1),
            lines[n - 1].pieces@,
            lines[n - 1].pieces@.len() as int,
            min_int(lines_len(lines, n), total),
        )
    }
}

/// The spans of a whole tokenized document.
pub open spec fn spans_of(lines: Seq<TokenizedLine>, total: int) -> Seq<StyleSpan> {
    doc_spans(lines, lines.len() as int, total)
}

/// Every span is non-empty and inside `0..total`.
pub open spec fn spans_in_bounds(spans: Seq<StyleSpan>, total: int) -> bool {
    forall|m: int| #![trigger spans[m]] 0 <= m < spans.len() ==> spans[m].start < spans[m].end <= total
}

/// Each span ends before the next one starts: no character is styled twice.
pub open spec fn spans_ordered(spans: Seq<StyleSpan>) -> bool {
    forall|a: int, b: int|
        #![trigger spans[a], spans[b]]
        0 <= a < b < spans.len() ==> spans[a].end <= spans[b].start
}

/// Every span lies inside `lo..hi`.
pub open spec fn spans_within(spans: Seq<StyleSpan>, lo: int, hi: int) -> bool {
    forall|m: int| #![trigger spans[m]] 0 <= m < spans.len() ==> lo <= spans[m].start && spans[m].end <= hi
}

proof fn lemma_pieces_len_monotonic(pieces: Seq<StyledPiece>, a: int, b: int)
    requires
        0 <= a <= b,
    ensures
        pieces_len(pieces, a) <= pieces_len(pieces, b),
    decreases b - a,
{
    if a < b {
        lemma_pieces_len_monotonic(pieces, a, b - 1);
    }
}

proof fn lemma_lines_len_nonneg(lines: Seq<TokenizedLine>, n: int)
    ensures
        0 <= lines_len(lines, n),
    decreases n,
{
    if n > 0 {
        lemma_lines_len_nonneg(lines, n - 1);
    }
}

proof fn lemma_concat_ordered(a: Seq<StyleSpan>, b: Seq<StyleSpan>, total: int, lo: int, mid: int, hi: int)
    requires
        spans_in_bounds(a, total),
        spans_in_bounds(b, total),
        spans_ordered(a),
        spans_ordered(b),
        spans_within(a, lo, mid),
        spans_within(b, mid, hi),
        lo <= mid <= hi,
    ensures
        spans_in_bounds(a + b, total),
        spans_ordered(a + b),
        spans_within(a + b, lo, hi),
{
    let c = a + b;
    assert forall|m: int| #![trigger c[m]] 0 <= m < c.len() implies c[m].start < c[m].end <= total by {
        if m >= a.len() {
            assert(c[m] == b[m - a.len()]);
        }
    }
    assert forall|x: int, y: int| #![trigger c[x], c[y]] 0 <= x < y < c.len() implies c[x].end <= c[y].start by {
        if y < a.len() {
        } else if x >= a.len() {
            assert(c[x] == b[x - a.len()]);
            assert(c[y] == b[y - a.len()]);
        } else {
            assert(c[y] == b[y - a.len()]);
            assert(a[x].end <= mid);
        }
    }
    assert forall|m: int| #![trigger c[m]] 0 <= m < c.len() implies lo <= c[m].start && c[m].end <= hi by {
        if m >= a.len() {
            assert(c[m] == b[m - a.len()]);
        } else {
            assert(a[m].start < a[m].end);
        }
    }
}

proof fn lemma_line_spans_shape(base: int, pieces: Seq<StyledPiece>, k: int, total: int)
    requires
        0 <= base,
        0 <= total <= usize::MAX,
        0 <= k <= pieces.len(),
    ensures
        spans_in_bounds(line_spans(base, pieces, k, total), total),
        spans_ordered(line_spans(base, pieces, k, total)),
        spans_within(
            line_spans(base, pieces, k, total),
            min_int(base, total),
            min_int(base + pieces_len(pieces, k), total),
        ),
    decreases k,
{
    if k > 0 {
        lemma_line_spans_shape(base, pieces, k - 1, total);
        lemma_pieces_len_monotonic(pieces, 0, k - 1);
        lemma_pieces_len_monotonic(pieces, k - 1, k);
        let last = option_seq(piece_span(base, pieces, k - 1, total));
        let mid = min_int(base + pieces_len(pieces, k - 1), total);
        assert(spans_within(last, mid, min_int(base + pieces_len(pieces, k), total)));
        lemma_concat_ordered(
            line_spans(base, pieces, k - 1, total),
            last,
            total,
            min_int(base, total),
            mid,
            min_int(base + pieces_len(pieces, k), total),
        );
    }
}

proof fn lemma_in_bounds_weaken(s: Seq<StyleSpan>, lim: int, total: int)
    requires
        spans_in_bounds(s, lim),
        lim <= total,
    ensures
        spans_in_bounds(s, total),
{
    assert forall|m: int| #![trigger s[m]] 0 <= m < s.len() implies s[m].start < s[m].end <= total by {
        assert(s[m].end <= lim);
    }
}

proof fn lemma_doc_spans_shape(lines: Seq<TokenizedLine>, n: int, total: int)
    requires
        0 <= total <= usize::MAX,
        0 <= n <= lines.len(),
    ensures
        spans_in_bounds(doc_spans(lines, n, total), total),
        spans_ordered(doc_spans(lines, n, total)),
        spans_within(doc_spans(lines, n, total), 0, min_int(lines_len(lines, n), total)),
    decreases n,
{
    if n > 0 {
        lemma_doc_spans_shape(lines, n - 1, total);
        lemma_lines_len_nonneg(lines, n - 1);
        let base = lines_len(lines, n - 1);
        let pieces = lines[n - 1].pieces@;
        let lim = min_int(lines_len(lines, n), total);
        lemma_line_spans_shape(base, pieces, pieces.len() as int, lim);
        lemma_in_bounds_weaken(line_spans(base, pieces, pieces.len() as int, lim), lim, total);
        assert(min_int(base, lim) == min_int(base, total));
        lemma_concat_ordered(
            doc_spans(lines, n - 1, total),
            line_spans(base, pieces, pieces.len() as int, lim),
            total,
            0,
            min_int(base, total),
            lim,
        );
    }
}

proof fn lemma_joined_len(lines: Seq<TokenizedLine>, n: int)
    ensures
        joined_text(lines, n).len() == lines_len(lines, n),
    decreases n,
{
    if n > 0 {
        lemma_joined_len(lines, n - 1);
    }
}

/// Character correctness: when the lines join up to the document's text, their
/// character counts add up to the text's character count, and every span
/// computed from the lines is non-empty and lies inside `0..total`.
pub proof fn lemma_character_correct(lines: Seq<TokenizedLine>, text: Seq<char>, total: usize)
    requires
        joined_text(lines, lines.len() as int) == text,
    ensures
        lines_len(lines, lines.len() as int) == text.len(),
        spans_in_bounds(spans_of(lines, total as int), total as int),
{
    lemma_joined_len(lines, lines.len() as int);
    lemma_doc_spans_shape(lines, lines.len() as int, total as int);
}

/// Non-overlap: the spans computed from any tokenized lines come in document
/// order and no two share a character.
pub proof fn lemma_spans_disjoint(lines: Seq<TokenizedLine>, total: usize)
    ensures
        spans_ordered(spans_of(lines, total as int)),
        spans_in_bounds(spans_of(lines, total as int), total as int),
{
    lemma_doc_spans_shape(lines, lines.len() as int, total as int);
}

/// Where piece `k` of line `i` starts in the document, clamped to its line and
/// to the document.
pub open spec fn piece_start(lines: Seq<TokenizedLine>, i: int, k: int, total: int) -> int {
    min_int(
        lines_len(lines, i) + pieces_len(lines[i].pieces@, k),
        min_int(lines_len(lines, i + 1), total),
    )
}

/// Where piece `k` of line `i` ends in the document, clamped to its line and to
/// the document.
pub open spec fn piece_end(lines: Seq<TokenizedLine>, i: int, k: int, total: int) -> int {
    min_int(
        lines_len(lines, i) + pieces_len(lines[i].pieces@, k + 1),
        min_int(lines_len(lines, i + 1), total),
    )
}

proof fn lemma_pieces_len_nonneg(pieces: Seq<StyledPiece>, k: int)
    ensures
        0 <= pieces_len(pieces, k),
    decreases k,
{
    if k > 0 {
        lemma_pieces_len_nonneg(pieces, k - 1);
    }
}

proof fn lemma_lines_len_monotonic(lines: Seq<TokenizedLine>, a: int, b: int)
    requires
        a <= b,
    ensures
        lines_len(lines, a) <= lines_len(lines, b),
    decreases b - a,
{
    if a < b {
        lemma_lines_len_monotonic(lines, a, b - 1);
    }
}

/// The spans of the first `k` pieces lead those of the first `n`, and the
/// later ones start no earlier than piece `k`.
proof fn lemma_line_spans_suffix(base: int, pieces: Seq<StyledPiece>, k: int, n: int, lim: int)
    requires
        0 <= base,
        0 <= lim <= usize::MAX,
        0 <= k <= n <= pieces.len(),
    ensures
        line_spans(base, pieces, n, lim).len() >= line_spans(base, pieces, k, lim).len(),
        line_spans(base, pieces, n, lim).take(line_spans(base, pieces, k, lim).len() as int)
            == line_spans(base, pieces, k, lim),
        forall|m: int|
            #![trigger line_spans(base, pieces, n, lim)[m]]
            line_spans(base, pieces, k, lim).len() <= m < line_spans(base, pieces, n, lim).len()
                ==> line_spans(base, pieces, n, lim)[m].start >= min_int(
                base + pieces_len(pieces, k),
                lim,
            ),
    decreases n - k,
{
    if n > k {
        lemma_line_spans_suffix(base, pieces, k, n - 1, lim);
        lemma_pieces_len_monotonic(pieces, k, n - 1);
        lemma_pieces_len_nonneg(pieces, k);
        let a = line_spans(base, pieces, n - 1, lim);
        let c = line_spans(base, pieces, n, lim);
        let p = line_spans(base, pieces, k, lim);
        assert(c.take(p.len() as int) =~= a.take(p.len() as int));
        assert forall|m: int| #![trigger c[m]] p.len() <= m < c.len() implies c[m].start >= min_int(
            base + pieces_len(pieces, k),
            lim,
        ) by {
            if m < a.len() {
                assert(c[m] == a[m]);
            }
        }
    } else {
        assert(line_spans(base, pieces, n, lim).take(line_spans(base, pieces, k, lim).len() as int)
            =~= line_spans(base, pieces, k, lim));
    }
}

/// The spans of the first `i` lines lead those of the first `n`, and the later
/// ones start no earlier than line `i`.
proof fn lemma_doc_spans_suffix(lines: Seq<TokenizedLine>, i: int, n: int, total: int)
    requires
        0 <= total <= usize::MAX,
        0 <= i <= n <= lines.len(),
    ensures
        doc_spans(lines, n, total).len() >= doc_spans(lines, i, total).len(),
        doc_spans(lines, n, total).take(doc_spans(lines, i, total).len() as int) == doc_spans(
            lines,
            i,
            total,
        ),
        forall|m: int|
            #![trigger doc_spans(lines, n, total)[m]]
            doc_spans(lines, i, total).len() <= m < doc_spans(lines, n, total).len()
                ==> doc_spans(lines, n, total)[m].start >= min_int(lines_len(lines, i), total),
    decreases n - i,
{
    if n > i {
        lemma_doc_spans_suffix(lines, i, n - 1, total);
        lemma_lines_len_monotonic(lines, i, n - 1);
        lemma_lines_len_monotonic(lines, n - 1, n);
        lemma_lines_len_nonneg(lines, n - 1);
        let base = lines_len(lines, n - 1);
        let pieces = lines[n - 1].pieces@;
        let lim = min_int(lines_len(lines, n), total);
        lemma_line_spans_shape(base, pieces, pieces.len() as int, lim);
        let a = doc_spans(lines, n - 1, total);
        let b = line_spans(base, pieces, pieces.len() as int, lim);
        let c = doc_spans(lines, n, total);
        let p = doc_spans(lines, i, total);
        assert(c.take(p.len() as int) =~= a.take(p.len() as int));
        assert forall|m: int| #![trigger c[m]] p.len() <= m < c.len() implies c[m].start >= min_int(
            lines_len(lines, i),
            total,
        ) by {
            if m < a.len() {
                assert(c[m] == a[m]);
            } else {
                assert(c[m] == b[m - a.len()]);
            }
        }
    } else {
        assert(doc_spans(lines, n, total).take(doc_spans(lines, i, total).len() as int)
            =~= doc_spans(lines, i, total));
    }
}

/// Transparent tokens are never styled: no span computed from the lines covers
/// any character of a piece whose colour has alpha 0, wherever that piece
/// stands; the pieces after it keep their offsets, since every piece counts
/// towards them.
pub proof fn lemma_transparent_pieces_unstyled(
    lines: Seq<TokenizedLine>,
    total: usize,
    i: int,
    k: int,
)
    requires
        0 <= i < lines.len(),
        0 <= k < lines[i].pieces@.len(),
        lines[i].pieces@[k].fg.a == 0,
    ensures
        forall|m: int|
            #![trigger spans_of(lines, total as int)[m]]
            0 <= m < spans_of(lines, total as int).len() ==> spans_of(lines, total as int)[m].end
                <= piece_start(lines, i, k, total as int) || spans_of(lines, total as int)[m].start
                >= piece_end(lines, i, k, total as int),
{
    let t = total as int;
    let all = spans_of(lines, t);
    let base = lines_len(lines, i);
    let pieces = lines[i].pieces@;
    let lim = min_int(lines_len(lines, i + 1), t);
    let ps = piece_start(lines, i, k, t);
    let pe = piece_end(lines, i, k, t);
    lemma_lines_len_nonneg(lines, i);
    lemma_lines_len_monotonic(lines, i, i + 1);
    lemma_pieces_len_nonneg(pieces, k);
    lemma_pieces_len_monotonic(pieces, k, k + 1);
    lemma_doc_spans_shape(lines, i, t);
    lemma_doc_spans_suffix(lines, i + 1, lines.len() as int, t);
    lemma_line_spans_shape(base, pieces, k, lim);
    lemma_line_spans_suffix(base, pieces, k + 1, pieces.len() as int, lim);
    let a = doc_spans(lines, i, t);
    let b = line_spans(base, pieces, pieces.len() as int, lim);
    let p = line_spans(base, pieces, k, lim);
    assert(line_spans(base, pieces, k + 1, lim) == p);
    assert(doc_spans(lines, i + 1, t) == a + b);
    assert forall|m: int| #![trigger all[m]] 0 <= m < all.len() implies all[m].end <= ps
        || all[m].start >= pe by {
        let front = doc_spans(lines, i + 1, t);
        if m < front.len() {
            assert(all[m] == all.take(front.len() as int)[m]);
            assert(all[m] == front[m]);
            if m < a.len() {
                assert(front[m] == a[m]);
            } else {
                let j = m - a.len();
                assert(front[m] == b[j]);
                if j < p.len() {
                    assert(b[j] == b.take(p.len() as int)[j]);
                    assert(b[j] == p[j]);
                }
            }
        }
    }
}

proof fn lemma_pieces_text_len(pieces: Seq<StyledPiece>, k: int)
    ensures
        pieces_text(pieces, k).len() == pieces_len(pieces, k),
    decreases k,
{
    if k > 0 {
        lemma_pieces_text_len(pieces, k - 1);
    }
}

/// The first `m` pieces' texts lead the first `n` pieces' texts.
proof fn lemma_pieces_text_prefix(pieces: Seq<StyledPiece>, m: int, n: int)
    requires
        0 <= m <= n,
    ensures
        pieces_text(pieces, m).is_prefix_of(pieces_text(pieces, n)),
    decreases n - m,
{
    if m < n {
        lemma_pieces_text_prefix(pieces, m, n - 1);
        let a = pieces_text(pieces, m);
        let b = pieces_text(pieces, n - 1);
        assert(a =~= (b + pieces[n - 1].text@).subrange(0, a.len() as int));
    } else {
        assert(pieces_text(pieces, m) =~= pieces_text(pieces, n).subrange(0, pieces_text(pieces, m).len() as int));
    }
}

/// The first `m` lines' text leads the first `n` lines' text.
proof fn lemma_joined_text_prefix(lines: Seq<TokenizedLine>, m: int, n: int)
    requires
        0 <= m <= n,
    ensures
        joined_text(lines, m).is_prefix_of(joined_text(lines, n)),
    decreases n - m,
{
    if m < n {
        lemma_joined_text_prefix(lines, m, n - 1);
        let a = joined_text(lines, m);
        let b = joined_text(lines, n - 1);
        assert(a =~= (b + lines[n - 1].text@).subrange(0, a.len() as int));
    } else {
        assert(joined_text(lines, m) =~= joined_text(lines, n).subrange(0, joined_text(lines, m).len() as int));
    }
}

/// Character offsets: when the pieces of line `i` lie one after another from
/// its start, the document's characters from piece `k`'s start to its end,
/// counted in characters before any clamping, are exactly that piece's text.
/// So a piece's span starts at the number of characters that precede the piece
/// in the document.
pub proof fn lemma_piece_offsets(lines: Seq<TokenizedLine>, i: int, k: int)
    requires
        0 <= i < lines.len(),
        0 <= k < lines[i].pieces@.len(),
        pieces_in_place(lines[i]),
    ensures
        0 <= lines_len(lines, i) + pieces_len(lines[i].pieces@, k),
        lines_len(lines, i) + pieces_len(lines[i].pieces@, k + 1) <= lines_len(lines, lines.len() as int),
        joined_text(lines, lines.len() as int).subrange(
            lines_len(lines, i) + pieces_len(lines[i].pieces@, k),
            lines_len(lines, i) + pieces_len(lines[i].pieces@, k + 1),
        ) == lines[i].pieces@[k].text@,
{
    let pieces = lines[i].pieces@;
    let line = lines[i].text@;
    let n = pieces.len() as int;
    let all = joined_text(lines, lines.len() as int);
    let base = lines_len(lines, i);
    lemma_pieces_text_len(pieces, k);
    lemma_pieces_text_len(pieces, k + 1);
    lemma_pieces_text_len(pieces, n);
    lemma_pieces_len_nonneg(pieces, k);
    lemma_lines_len_nonneg(lines, i);
    lemma_pieces_text_prefix(pieces, k + 1, n);
    let pk = pieces_text(pieces, k);
    let pk1 = pieces_text(pieces, k + 1);
    assert(pk1 == pk + pieces[k].text@);
    assert(pk1.is_prefix_of(line));
    let seg = line.subrange(pk.len() as int, pk1.len() as int);
    assert forall|j: int| 0 <= j < seg.len() implies #[trigger] seg[j] == pieces[k].text@[j] by {
        assert(seg[j] == line[pk.len() + j]);
        assert(pk1[pk.len() + j] == pieces[k].text@[j]);
        assert(line[pk.len() + j] == pk1[pk.len() + j]);
    }
    assert(seg =~= pieces[k].text@);
    lemma_joined_text_prefix(lines, i + 1, lines.len() as int);
    lemma_joined_len(lines, i);
    lemma_joined_len(lines, i + 1);
    lemma_joined_len(lines, lines.len() as int);
    let front = joined_text(lines, i + 1);
    assert(front == joined_text(lines, i) + line);
    let doc_seg = all.subrange(base + pk.len(), base + pk1.len());
    assert forall|j: int| 0 <= j < doc_seg.len() implies #[trigger] doc_seg[j] == seg[j] by {
        assert(doc_seg[j] == all[base + pk.len() + j]);
        assert(all[base + pk.len() + j] == front[base + pk.len() + j]);
        assert(front[base + pk.len() + j] == line[pk.len() + j]);
    }
    assert(doc_seg =~= seg);
}

/// `min(a + b, total)` for `a <= total`, without overflow.
fn add_clamped(a: usize, b: usize, total: usize) -> (r: usize)
    requires
        a <= total,
    ensures
        r == min_int(a + b, total as int),
{
    if b >= total - a {
        total
    } else {
        a + b
    }
}

/// Maps tokenized lines to character spans for a document of
/// `total_chars` characters: each piece's range is measured in characters from
/// the start of the document, clamped to its line and to the document, and
/// dropped when the piece is empty, transparent, or empty after clamping.
pub fn spans_of_lines(lines: &Vec<TokenizedLine>, total_chars: usize) -> (r: Vec<StyleSpan>)
    ensures
        r@ == spans_of(lines@, total_chars as int),
{
    let mut out: Vec<StyleSpan> = Vec::new();
    let mut cum: usize = 0;
    let mut i: usize = 0;
    while i < lines.len()
        invariant
            0 <= i <= lines@.len(),
            cum == min_int(lines_len(lines@, i as int), total_chars as int),
            out@ == doc_spans(lines@, i as int, total_chars as int),
        decreases lines@.len() - i,
    {
        let line = &lines[i];
        let ghost base = lines_len(lines@, i as int);
        let ghost before = out@;
        let line_len = line.text.unicode_len();
        let lim = add_clamped(cum, line_len, total_chars);
        assert(lim == min_int(lines_len(lines@, i + 1), total_chars as int));
        let mut local: usize = 0;
        let mut k: usize = 0;
        while k < line.pieces.len()
            invariant
                0 <= k <= line.pieces@.len(),
                line == lines@[i as int],
                base == lines_len(lines@, i as int),
                cum == min_int(base, total_chars as int),
                lim == min_int(base + line.text@.len(), total_chars as int),
                local == min_int(pieces_len(line.pieces@, k as int), total_chars as int),
                out@ == before + line_spans(base, line.pieces@, k as int, lim as int),
            decreases line.pieces@.len() - k,
        {
            let piece = &line.pieces[k];
            let len = piece.text.unicode_len();
            let start = add_clamped(cum, local, total_chars);
            let start = if start < lim { start } else { lim };
            let end = add_clamped(start, len, lim);
            if len > 0 && piece.fg.visible() && start < end {
                out.push(StyleSpan { start, end, color: piece.fg.opaque() });
            }
            assert(out@ =~= before + line_spans(base, line.pieces@, k + 1, lim as int));
            local = if len >= total_chars || local >= total_chars - len {
                total_chars
            } else {
                local + len
            };
            k = k + 1;
        }
        cum = lim;
        i = i + 1;
    }
    out
}

} // verus!
