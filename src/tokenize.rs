use vstd::prelude::*;

use syntect::easy::HighlightLines;
use syntect::highlighting::Theme;
use syntect::parsing::{SyntaxReference, SyntaxSet};
use syntect::util::LinesWithEndings;

use crate::color::Rgba;
use crate::config::HIGHLIGHT_CHAR_CUTOFF;
use crate::spans::{
    joined_text, pieces_in_place, pieces_text, lemma_character_correct, lemma_spans_disjoint, spans_in_bounds, spans_of,
    spans_of_lines, spans_ordered, StyleSpan, StyledPiece, TokenizedLine,
};

verus! {

/// syntect's `SyntaxSet`, the loaded grammars; carried through unopened.
#[verifier::external_type_specification]
#[verifier::external_body]
pub struct ExSyntaxSet(SyntaxSet);

/// syntect's `SyntaxReference`, one grammar of a set; carried through unopened.
#[verifier::external_type_specification]
#[verifier::external_body]
pub struct ExSyntaxReference(SyntaxReference);

/// syntect's `Theme`, scopes mapped to colours; carried through unopened.
#[verifier::external_type_specification]
#[verifier::external_body]
pub struct ExTheme(Theme);

/// syntect's `HighlightLines`, a highlighter with its state between lines.
#[verifier::external_type_specification]
#[verifier::external_body]
pub struct ExHighlightLines<'a>(HighlightLines<'a>);

/// The grammar a set registers for a file extension, as
/// `SyntaxSet::find_syntax_by_extension` finds it.
pub uninterp spec fn grammar_for_extension(ss: SyntaxSet, extension: Seq<char>) -> Option<
    SyntaxReference,
>;

/// The grammar of a set with the given name, as `SyntaxSet::find_syntax_by_name`
/// finds it.
pub uninterp spec fn grammar_named(ss: SyntaxSet, name: Seq<char>) -> Option<SyntaxReference>;

/// What `HighlightLines::highlight_line` gives for the last of `lines` when the
/// highlighter was made from `syntax` and `theme` and has been handed the lines
/// before it, in order, with the set `ss`: the tokens (foreground colour and
/// text), or `None` where it reports an error.
pub uninterp spec fn syntect_tokens(
    syntax: SyntaxReference,
    theme: Theme,
    ss: SyntaxSet,
    lines: Seq<Seq<char>>,
) -> Option<Seq<(Rgba, Seq<char>)>>;

/// What a highlighter was made from (grammar, theme, and the set it is used
/// with) and the lines it has been handed since, in order.
pub uninterp spec fn highlighter_history(h: HighlightLines) -> (
    SyntaxReference,
    Theme,
    SyntaxSet,
    Seq<Seq<char>>,
);

/// Whether a grammar is one of the set's own, found by extension or by name.
/// Highlighting with a grammar of another set may panic.
pub open spec fn set_holds(ss: SyntaxSet, syntax: SyntaxReference) -> bool {
    (exists|e: Seq<char>| grammar_for_extension(ss, e) == Some(syntax)) || (exists|n: Seq<char>|
        grammar_named(ss, n) == Some(syntax))
}

/// Length of the first line of `s`: up to and including its first newline, or
/// all of `s` when it has none.
pub open spec fn first_line_len(s: Seq<char>) -> nat
    decreases s.len(),
{
    if s.len() == 0 {
        0
    } else if s[0] == '\n' {
        1
    } else {
        1 + first_line_len(s.drop_first())
    }
}

/// `s` cut after each newline; newlines stay with their line and no line is
/// empty.
pub open spec fn split_lines(s: Seq<char>) -> Seq<Seq<char>>
    decreases s.len(),
{
    let k = first_line_len(s);
    if s.len() == 0 || k == 0 || k > s.len() {
        Seq::empty()
    } else {
        seq![s.take(k as int)] + split_lines(s.skip(k as int))
    }
}

/// Pieces as (colour, text) pairs.
pub open spec fn pieces_view(p: Seq<StyledPiece>) -> Seq<(Rgba, Seq<char>)> {
    p.map_values(|x: StyledPiece| (x.fg, x.text@))
}

/// An extension argument as a spec value.
pub open spec fn ext_view(e: Option<&str>) -> Option<Seq<char>> {
    match e {
        Some(s) => Some(s@),
        None => None,
    }
}

/// The grammar for a file extension: the one the set registers for it, else
/// the set's plain-text grammar.
pub open spec fn chosen_grammar(ss: SyntaxSet, extension: Option<Seq<char>>) -> Option<
    SyntaxReference,
> {
    match extension {
        Some(e) => match grammar_for_extension(ss, e) {
            Some(g) => Some(g),
            None => grammar_named(ss, "Plain Text"@),
        },
        None => grammar_named(ss, "Plain Text"@),
    }
}

/// The tokens of line `i` of `lines`: syntect's tokens for it with grammar
/// `g`, or none where there is no grammar or highlighting the line failed.
pub open spec fn line_tokens(
    g: Option<SyntaxReference>,
    theme: Theme,
    ss: SyntaxSet,
    lines: Seq<Seq<char>>,
    i: int,
) -> Seq<(Rgba, Seq<char>)> {
    match g {
        None => Seq::empty(),
        Some(syntax) => match syntect_tokens(syntax, theme, ss, lines.take(i + 1)) {
            Some(t) => t,
            None => Seq::empty(),
        },
    }
}

/// `lines` is the tokenization of `text` for that extension, theme and set:
/// one entry per line of the text, with that line's tokens.
pub open spec fn tokenized_as(
    lines: Seq<TokenizedLine>,
    text: Seq<char>,
    extension: Option<Seq<char>>,
    theme: Theme,
    ss: SyntaxSet,
) -> bool {
    let parts = split_lines(text);
    &&& lines.len() == parts.len()
    &&& forall|i: int| 0 <= i < lines.len() ==> #[trigger] lines[i].text@ == parts[i]
    &&& forall|i: int|
        0 <= i < lines.len() ==> #[trigger] pieces_view(lines[i].pieces@) == line_tokens(
            chosen_grammar(ss, extension),
            theme,
            ss,
            parts,
            i,
        )
}

/// Relies on syntect's `LinesWithEndings`: it cuts the text after each newline,
/// keeping the newline, and yields no empty line.
#[verifier::external_body]
fn lines_with_endings(text: &str) -> (r: Vec<String>)
    ensures
        r@.len() == split_lines(text@).len(),
        forall|i: int| 0 <= i < r@.len() ==> #[trigger] r@[i]@ == split_lines(text@)[i],
{
    LinesWithEndings::from(text).map(|line| line.to_string()).collect()
}

/// Relies on syntect's `HighlightLines::new`: a highlighter for `syntax` in
/// `theme`, at the start of a document, to be used with the set `ss` that holds
/// `syntax`.
#[verifier::external_body]
fn new_highlighter<'a>(syntax: &SyntaxReference, theme: &'a Theme, ss: &SyntaxSet) -> (r:
    HighlightLines<'a>)
    requires
        set_holds(*ss, *syntax),
    ensures
        highlighter_history(r) == (*syntax, *theme, *ss, Seq::<Seq<char>>::empty()),
{
    HighlightLines::new(syntax, theme)
}

/// Relies on syntect's `HighlightLines::highlight_line`: the tokens of the next
/// line, `None` where it reports an error. Its token iterator yields
/// consecutive slices of the line from its start, skipping empty ones, and may
/// stop early, so the tokens join up to a prefix of the line. Its documentation says it may panic
/// unless `ss` holds the highlighter's grammar.
#[verifier::external_body]
fn highlight_line(h: &mut HighlightLines, line: &str, ss: &SyntaxSet) -> (r: Option<
    Vec<StyledPiece>,
>)
    requires
        highlighter_history(*old(h)).2 == *ss,
        set_holds(*ss, highlighter_history(*old(h)).0),
    ensures
        ({
            let (g, t, s, fed) = highlighter_history(*old(h));
            &&& highlighter_history(*final(h)) == (g, t, s, fed.push(line@))
            &&& r matches Some(v) ==> syntect_tokens(g, t, s, fed.push(line@)) == Some(
                pieces_view(v@),
            )
            &&& r is None ==> syntect_tokens(g, t, s, fed.push(line@)) is None
            &&& r matches Some(v) ==> pieces_text(v@, v@.len() as int).is_prefix_of(line@)
        }),
{
    match h.highlight_line(line, ss) {
        Ok(tokens) => Some(tokens.into_iter().map(|(style, piece)| StyledPiece {
            fg: Rgba { r: style.foreground.r, g: style.foreground.g, b: style.foreground.b, a: style.foreground.a },
            text: piece.to_string(),
        }).collect()),
        Err(_) => None,
    }
}

/// Relies on syntect's `SyntaxSet::find_syntax_by_extension`: the grammar
/// registered for a file extension, if any.
#[verifier::external_body]
fn find_syntax_by_extension<'a>(ss: &'a SyntaxSet, extension: &str) -> (r: Option<
    &'a SyntaxReference,
>)
    ensures
        r matches Some(s) ==> grammar_for_extension(*ss, extension@) == Some(*s),
        r is None ==> grammar_for_extension(*ss, extension@) is None,
{
    ss.find_syntax_by_extension(extension)
}

/// Relies on syntect's `SyntaxSet::find_syntax_by_name`: the grammar with
/// that name, if the set holds one.
#[verifier::external_body]
fn find_syntax_by_name<'a>(ss: &'a SyntaxSet, name: &str) -> (r: Option<&'a SyntaxReference>)
    ensures
        r matches Some(s) ==> grammar_named(*ss, name@) == Some(*s),
        r is None ==> grammar_named(*ss, name@) is None,
{
    ss.find_syntax_by_name(name)
}

/// The grammar for a file extension; the plain-text grammar where the
/// extension is absent or unknown; none where the set lacks even that.
pub fn select_syntax<'a>(ss: &'a SyntaxSet, extension: Option<&str>) -> (r: Option<
    &'a SyntaxReference,
>)
    ensures
        r matches Some(s) ==> chosen_grammar(*ss, ext_view(extension)) == Some(*s),
        r is None ==> chosen_grammar(*ss, ext_view(extension)) is None,
        r matches Some(s) ==> set_holds(*ss, *s),
{
    match extension {
        Some(ext) => match find_syntax_by_extension(ss, ext) {
            Some(syntax) => {
                assert(grammar_for_extension(*ss, ext@) == Some(*syntax));
                Some(syntax)
            },
            None => find_syntax_by_name(ss, "Plain Text"),
        },
        None => find_syntax_by_name(ss, "Plain Text"),
    }
}

proof fn lemma_first_line_len(s: Seq<char>)
    ensures
        s.len() > 0 ==> 0 < first_line_len(s) <= s.len(),
        s.len() == 0 ==> first_line_len(s) == 0,
    decreases s.len(),
{
    if s.len() > 0 {
        lemma_first_line_len(s.drop_first());
    }
}

proof fn lemma_split_joins(s: Seq<char>, lines: Seq<TokenizedLine>)
    requires
        lines.len() == split_lines(s).len(),
        forall|i: int| 0 <= i < lines.len() ==> #[trigger] lines[i].text@ == split_lines(s)[i],
    ensures
        joined_text(lines, lines.len() as int) == s,
    decreases s.len(),
{
    lemma_first_line_len(s);
    let k = first_line_len(s);
    if s.len() == 0 {
    } else {
        let rest = s.skip(k as int);
        let tail = lines.drop_first();
        assert(split_lines(s) == seq![s.take(k as int)] + split_lines(rest));
        assert forall|i: int| 0 <= i < tail.len() implies #[trigger] tail[i].text@ == split_lines(rest)[i] by {
            assert(tail[i] == lines[i + 1]);
            assert(split_lines(s)[i + 1] == split_lines(rest)[i]);
        }
        lemma_split_joins(rest, tail);
        lemma_joined_front(lines);
        assert(lines[0].text@ == s.take(k as int));
        assert(s =~= s.take(k as int) + rest);
    }
}

/// Joining lines is the first line followed by the rest joined.
proof fn lemma_joined_front(lines: Seq<TokenizedLine>)
    requires
        lines.len() > 0,
    ensures
        joined_text(lines, lines.len() as int) == lines[0].text@ + joined_text(
            lines.drop_first(),
            lines.len() - 1,
        ),
    decreases lines.len(),
{
    if lines.len() > 1 {
        let init = lines.drop_last();
        lemma_joined_prefix(lines, init, lines.len() - 1);
        lemma_joined_front(init);
        lemma_joined_prefix(lines.drop_first(), init.drop_first(), lines.len() - 2);
        assert(lines.drop_first()[lines.len() - 2] == lines[lines.len() - 1]);
    } else {
        assert(joined_text(lines.drop_first(), 0) == Seq::<char>::empty());
        assert(joined_text(lines, 0) == Seq::<char>::empty());
        assert(joined_text(lines, 1) =~= lines[0].text@);
    }
}

proof fn lemma_joined_prefix(a: Seq<TokenizedLine>, b: Seq<TokenizedLine>, n: int)
    requires
        0 <= n <= a.len(),
        n <= b.len(),
        forall|j: int| 0 <= j < n ==> a[j] == b[j],
    ensures
        joined_text(a, n) == joined_text(b, n),
    decreases n,
{
    if n > 0 {
        lemma_joined_prefix(a, b, n - 1);
    }
}

/// Cuts `text` into lines and styles each in turn with one highlighter for the
/// extension's grammar, so that constructs spanning lines carry over. A line
/// whose highlighting fails gets no tokens and the next line is still
/// highlighted; without any grammar no line gets tokens.
pub fn tokenize(text: &str, extension: Option<&str>, theme: &Theme, ss: &SyntaxSet) -> (r: Vec<
    TokenizedLine,
>)
    ensures
        tokenized_as(r@, text@, ext_view(extension), *theme, *ss),
        joined_text(r@, r@.len() as int) == text@,
        forall|i: int| 0 <= i < r@.len() ==> #[trigger] pieces_in_place(r@[i]),
{
    let lines = lines_with_endings(text);
    let ghost parts = split_lines(text@);
    let ghost g = chosen_grammar(*ss, ext_view(extension));
    let syntax = select_syntax(ss, extension);
    let mut h = match syntax {
        Some(s) => Some(new_highlighter(s, theme, ss)),
        None => None,
    };
    let mut out: Vec<TokenizedLine> = Vec::new();
    let mut i: usize = 0;
    while i < lines.len()
        invariant
            0 <= i <= lines@.len(),
            lines@.len() == parts.len(),
            forall|j: int| 0 <= j < lines@.len() ==> #[trigger] lines@[j]@ == parts[j],
            out@.len() == i,
            forall|j: int| 0 <= j < i ==> #[trigger] out@[j].text@ == parts[j],
            forall|j: int| 0 <= j < i ==> #[trigger] pieces_in_place(out@[j]),
            forall|j: int|
                0 <= j < i ==> #[trigger] pieces_view(out@[j].pieces@) == line_tokens(
                    g,
                    *theme,
                    *ss,
                    parts,
                    j,
                ),
            h is Some <==> g is Some,
            h matches Some(hl) ==> highlighter_history(hl) == (
                g->0,
                *theme,
                *ss,
                parts.take(i as int),
            ),
            g matches Some(s) ==> set_holds(*ss, s),
        decreases lines@.len() - i,
    {
        let line = lines[i].clone();
        let pieces = match &mut h {
            Some(hl) => match highlight_line(hl, line.as_str(), ss) {
                Some(v) => v,
                None => Vec::new(),
            },
            None => Vec::new(),
        };
        assert(parts.take(i as int).push(parts[i as int]) =~= parts.take(i + 1));
        assert(pieces_view(Seq::<StyledPiece>::empty()) =~= Seq::<(Rgba, Seq<char>)>::empty());
        let ghost prev = out@;
        out.push(TokenizedLine { text: line, pieces });
        assert(pieces_text(Seq::<StyledPiece>::empty(), 0).is_prefix_of(out@[i as int].text@));
        assert forall|j: int| 0 <= j < i + 1 implies #[trigger] pieces_in_place(out@[j]) by {
            if j < i {
                assert(out@[j] == prev[j]);
            }
        }
        assert forall|j: int| 0 <= j < i + 1 implies #[trigger] out@[j].text@ == parts[j] by {
            if j < i {
                assert(out@[j] == prev[j]);
            }
        }
        assert forall|j: int| 0 <= j < i + 1 implies #[trigger] pieces_view(out@[j].pieces@)
            == line_tokens(g, *theme, *ss, parts, j) by {
            if j < i {
                assert(out@[j] == prev[j]);
            }
        }
        i = i + 1;
    }
    proof {
        lemma_split_joins(text@, out@);
    }
    out
}

/// One highlighting pass over `text` for a destination surface that holds
/// `total_chars` characters: nothing above the cutoff; otherwise the spans of
/// the text's tokenization for that extension, theme and set. Either way the
/// spans are non-empty, inside `0..total_chars`, in order and disjoint.
pub fn highlight_with_syntect(
    text: &str,
    total_chars: usize,
    extension: Option<&str>,
    theme: &Theme,
    ss: &SyntaxSet,
) -> (r: Vec<StyleSpan>)
    ensures
        total_chars > HIGHLIGHT_CHAR_CUTOFF ==> r@.len() == 0,
        total_chars <= HIGHLIGHT_CHAR_CUTOFF ==> exists|lines: Seq<TokenizedLine>|
            tokenized_as(lines, text@, ext_view(extension), *theme, *ss) && r@ == spans_of(
                lines,
                total_chars as int,
            ),
        spans_in_bounds(r@, total_chars as int),
        spans_ordered(r@),
{
    if total_chars > HIGHLIGHT_CHAR_CUTOFF {
        return Vec::new();
    }
    let lines = tokenize(text, extension, theme, ss);
    let spans = spans_of_lines(&lines, total_chars);
    proof {
        lemma_character_correct(lines@, text@, total_chars);
        lemma_spans_disjoint(lines@, total_chars);
    }
    spans
}

} // verus!
