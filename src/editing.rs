use vstd::prelude::*;

verus! {

/// Spaces per indentation level.
pub const TAB_WIDTH: usize = 4;

/// Unicode white space, as `char::is_whitespace` classifies it.
pub open spec fn is_white_space(c: char) -> bool {
    ||| '\t' <= c <= '\r'
    ||| c == ' '
    ||| c == '\u{85}'
    ||| c == '\u{A0}'
    ||| c == '\u{1680}'
    ||| '\u{2000}' <= c <= '\u{200A}'
    ||| c == '\u{2028}'
    ||| c == '\u{2029}'
    ||| c == '\u{202F}'
    ||| c == '\u{205F}'
    ||| c == '\u{3000}'
}

/// How many spaces `s` starts with.
pub open spec fn leading_spaces(s: Seq<char>) -> nat
    decreases s.len(),
{
    if s.len() == 0 || s[0] != ' ' {
        0
    } else {
        1 + leading_spaces(s.drop_first())
    }
}

/// `s` without its trailing white space.
pub open spec fn trim_end(s: Seq<char>) -> Seq<char>
    decreases s.len(),
{
    if s.len() > 0 && is_white_space(s.last()) {
        trim_end(s.drop_last())
    } else {
        s
    }
}

/// Whether the text before a line break opens a block: its last character
/// other than white space is `{`, `[`, `(` or `:`.
pub open spec fn opens_block(s: Seq<char>) -> bool {
    let t = trim_end(s);
    t.len() > 0 && (t.last() == '{' || t.last() == '[' || t.last() == '(' || t.last() == ':')
}

/// `n` spaces.
pub open spec fn spaces(n: nat) -> Seq<char> {
    Seq::new(n, |i: int| ' ')
}

/// What Enter inserts after `before` (the line up to the cursor): a line break,
/// the line's leading spaces, and one more level when `before` opens a block.
pub open spec fn newline_text(before: Seq<char>) -> Seq<char> {
    seq!['\n'] + spaces(leading_spaces(before)) + if opens_block(before) {
        spaces(TAB_WIDTH as nat)
    } else {
        Seq::empty()
    }
}

/// Whether every character of `s` is white space.
pub open spec fn all_white_space(s: Seq<char>) -> bool {
    forall|i: int| 0 <= i < s.len() ==> #[trigger] is_white_space(s[i])
}

/// Whether `c` is white space, as `char::is_whitespace` says.
pub fn is_white_space_char(c: char) -> (r: bool)
    ensures
        r == is_white_space(c),
{
    ('\t' <= c && c <= '\r') || c == ' ' || c == '\u{85}' || c == '\u{A0}' || c == '\u{1680}' || (
    '\u{2000}' <= c && c <= '\u{200A}') || c == '\u{2028}' || c == '\u{2029}' || c == '\u{202F}'
        || c == '\u{205F}' || c == '\u{3000}'
}

proof fn lemma_leading_spaces_prefix(s: Seq<char>, n: int)
    requires
        0 <= n <= s.len(),
        forall|j: int| 0 <= j < n ==> s[j] == ' ',
        n == s.len() || s[n] != ' ',
    ensures
        leading_spaces(s) == n,
    decreases n,
{
    if n > 0 {
        let t = s.drop_first();
        assert forall|j: int| 0 <= j < n - 1 implies t[j] == ' ' by {
            assert(t[j] == s[j + 1]);
        }
        if n - 1 < t.len() {
            assert(t[n - 1] == s[n]);
        }
        lemma_leading_spaces_prefix(t, n - 1);
    }
}

/// How many spaces `s` starts with.
pub fn count_leading_spaces(s: &str) -> (r: usize)
    ensures
        r == leading_spaces(s@),
{
    let len = s.unicode_len();
    let mut n: usize = 0;
    while n < len && s.get_char(n) == ' '
        invariant
            0 <= n <= len,
            len == s@.len(),
            forall|j: int| 0 <= j < n ==> s@[j] == ' ',
        decreases len - n,
    {
        n = n + 1;
    }
    proof {
        lemma_leading_spaces_prefix(s@, n as int);
    }
    n
}

/// How many spaces Shift+Tab removes from the start of `line`: its leading
/// spaces, one indentation level at most.
pub fn dedent_width(line: &str) -> (r: usize)
    ensures
        r == if leading_spaces(line@) < TAB_WIDTH {
            leading_spaces(line@)
        } else {
            TAB_WIDTH as nat
        },
{
    let n = count_leading_spaces(line);
    if n < TAB_WIDTH {
        n
    } else {
        TAB_WIDTH
    }
}

proof fn lemma_trim_end_prefix(s: Seq<char>, n: int)
    requires
        0 <= n <= s.len(),
        forall|j: int| n <= j < s.len() ==> #[trigger] is_white_space(s[j]),
        n == 0 || !is_white_space(s[n - 1]),
    ensures
        trim_end(s) == s.subrange(0, n),
    decreases s.len(),
{
    if s.len() > n {
        let t = s.drop_last();
        assert(is_white_space(s[s.len() - 1]));
        assert forall|j: int| n <= j < t.len() implies #[trigger] is_white_space(t[j]) by {
            assert(t[j] == s[j]);
        }
        if n > 0 {
            assert(t[n - 1] == s[n - 1]);
        }
        lemma_trim_end_prefix(t, n);
        assert(t.subrange(0, n) =~= s.subrange(0, n));
    } else {
        assert(s.subrange(0, n) =~= s);
        if n > 0 {
            assert(s.last() == s[n - 1]);
        }
    }
}

/// Appends `n` spaces.
fn push_spaces(out: &mut String, n: usize)
    ensures
        final(out)@ == old(out)@ + spaces(n as nat),
{
    let mut i: usize = 0;
    while i < n
        invariant
            0 <= i <= n,
            out@ == old(out)@ + spaces(i as nat),
        decreases n - i,
    {
        out.append(" ");
        proof {
            reveal_strlit(" ");
        }
        assert(out@ =~= old(out)@ + spaces((i + 1) as nat));
        i = i + 1;
    }
}

/// What Tab inserts: one indentation level of spaces.
pub fn indent_unit() -> (r: String)
    ensures
        r@ == spaces(TAB_WIDTH as nat),
{
    let mut out = String::new();
    push_spaces(&mut out, TAB_WIDTH);
    assert(out@ =~= spaces(TAB_WIDTH as nat));
    out
}

/// What Enter inserts when `before` is the current line up to the cursor: a
/// line break, the line's leading spaces, and one more indentation level when
/// the last character of `before` other than white space is `{`, `[`, `(` or
/// `:`.
pub fn newline_with_indent(before: &str) -> (r: String)
    ensures
        r@ == newline_text(before@),
{
    let leading = count_leading_spaces(before);
    let len = before.unicode_len();
    let mut n: usize = len;
    while n > 0 && is_white_space_char(before.get_char(n - 1))
        invariant
            0 <= n <= len,
            len == before@.len(),
            forall|j: int| n <= j < len ==> #[trigger] is_white_space(before@[j]),
        decreases n,
    {
        n = n - 1;
    }
    proof {
        lemma_trim_end_prefix(before@, n as int);
    }
    let opens = if n > 0 {
        let c = before.get_char(n - 1);
        c == '{' || c == '[' || c == '(' || c == ':'
    } else {
        false
    };
    let mut out = String::from_str("\n");
    proof {
        reveal_strlit("\n");
    }
    push_spaces(&mut out, leading);
    if opens {
        push_spaces(&mut out, TAB_WIDTH);
    }
    assert(out@ =~= newline_text(before@));
    out
}

/// Bytes that `c` takes in UTF-8.
pub open spec fn utf8_width(c: char) -> nat {
    if (c as u32) < 0x80 {
        1
    } else if (c as u32) < 0x800 {
        2
    } else if (c as u32) < 0x10000 {
        3
    } else {
        4
    }
}

/// Bytes that `s` takes in UTF-8: the sum of its characters' widths.
pub open spec fn utf8_len(s: Seq<char>) -> nat
    decreases s.len(),
{
    if s.len() == 0 {
        0
    } else {
        utf8_len(s.drop_last()) + utf8_width(s.last())
    }
}

/// Bytes that `c` takes in UTF-8.
fn char_utf8_width(c: char) -> (r: usize)
    ensures
        r == utf8_width(c),
{
    let v = c as u32;
    if v < 0x80 {
        1
    } else if v < 0x800 {
        2
    } else if v < 0x10000 {
        3
    } else {
        4
    }
}

/// Whether `s` takes at least `n` bytes in UTF-8.
fn utf8_at_least(s: &str, n: usize) -> (r: bool)
    ensures
        r == (utf8_len(s@) >= n),
{
    let len = s.unicode_len();
    let mut acc: usize = 0;
    let mut i: usize = 0;
    while i < len && acc < n
        invariant
            0 <= i <= len,
            len == s@.len(),
            acc <= n,
            acc == utf8_len(s@.take(i as int)) || (acc == n && utf8_len(s@.take(i as int)) >= n),
        decreases len - i,
    {
        let w = char_utf8_width(s.get_char(i));
        assert(s@.take(i + 1).drop_last() =~= s@.take(i as int));
        acc = if w >= n - acc { n } else { acc + w };
        i = i + 1;
    }
    proof {
        assert(s@.take(len as int) =~= s@);
        lemma_utf8_len_prefix(s@, i as int);
    }
    acc >= n
}

proof fn lemma_utf8_len_prefix(s: Seq<char>, i: int)
    requires
        0 <= i <= s.len(),
    ensures
        utf8_len(s.take(i)) <= utf8_len(s),
    decreases s.len() - i,
{
    if i < s.len() {
        lemma_utf8_len_prefix(s, i + 1);
        assert(s.take(i + 1).drop_last() =~= s.take(i));
    } else {
        assert(s.take(i) =~= s);
    }
}

/// How many characters to remove from the start of the line before typing a
/// closing bracket, when `before` is the line up to the cursor: one
/// indentation level when `before` is white space only and its UTF-8 form is at
/// least that many bytes long, none otherwise.
pub fn closing_bracket_dedent(before: &str) -> (r: usize)
    ensures
        r == if all_white_space(before@) && utf8_len(before@) >= TAB_WIDTH {
            TAB_WIDTH
        } else {
            0
        },
{
    let len = before.unicode_len();
    let mut i: usize = 0;
    while i < len
        invariant
            0 <= i <= len,
            len == before@.len(),
            forall|j: int| 0 <= j < i ==> #[trigger] is_white_space(before@[j]),
        decreases len - i,
    {
        if !is_white_space_char(before.get_char(i)) {
            return 0;
        }
        i = i + 1;
    }
    if utf8_at_least(before, TAB_WIDTH) {
        TAB_WIDTH
    } else {
        0
    }
}

} // verus!
