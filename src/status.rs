use vstd::prelude::*;

verus! {

/// The decimal digit for `d < 10`.
pub open spec fn digit_char(d: nat) -> char {
    ((('0' as u8) as nat) + d) as char
}

/// `n` written in decimal, without leading zeros.
pub open spec fn decimal(n: nat) -> Seq<char>
    decreases n,
{
    if n < 10 {
        seq![digit_char(n)]
    } else {
        decimal(n / 10).push(digit_char(n % 10))
    }
}

const DIGITS: &'static str = "0123456789";

fn push_digit(out: &mut String, d: u64)
    requires
        d < 10,
    ensures
        final(out)@ == old(out)@.push(digit_char(d as nat)),
{
    proof {
        reveal_strlit("0123456789");
    }
    assert(DIGITS.is_ascii());
    let i = d as usize;
    let digit = DIGITS.substring_ascii(i, i + 1);
    assert(digit@ =~= seq![digit_char(d as nat)]);
    out.append(digit);
}

/// Appends `n` in decimal.
fn push_decimal(out: &mut String, n: u64)
    ensures
        final(out)@ == old(out)@ + decimal(n as nat),
    decreases n,
{
    if n >= 10 {
        push_decimal(out, n / 10);
    }
    push_digit(out, n % 10);
    assert(final(out)@ =~= old(out)@ + decimal(n as nat));
}

/// The cursor position shown in the status bar, counting lines and columns
/// from one: `Ln 3, Col 7` for line index 2, column index 6.
pub fn position_label(line: u32, col: u32) -> (r: String)
    ensures
        r@ == "Ln "@ + decimal(line as nat + 1) + ", Col "@ + decimal(col as nat + 1),
{
    let mut out = String::from_str("Ln ");
    push_decimal(&mut out, line as u64 + 1);
    out.append(", Col ");
    push_decimal(&mut out, col as u64 + 1);
    out
}

/// The file information shown for a document that was never saved.
pub fn untitled_info(byte_len: usize) -> (r: String)
    ensures
        r@ == "Untitled — "@ + decimal(byte_len as nat) + " bytes"@,
{
    let mut out = String::from_str("Untitled — ");
    push_decimal(&mut out, byte_len as u64);
    out.append(" bytes");
    out
}

/// The file information shown for a saved document: its path, and its size on
/// disk where that could be read.
pub fn file_info(path: &str, size: Option<u64>) -> (r: String)
    ensures
        size is None ==> r@ == path@,
        size matches Some(n) ==> r@ == path@ + " — "@ + decimal(n as nat) + " bytes"@,
{
    let mut out = String::from_str(path);
    if let Some(n) = size {
        out.append(" — ");
        push_decimal(&mut out, n);
        out.append(" bytes");
    }
    out
}

/// A tab's title: the file's name, `Untitled` for a document without one,
/// marked with a leading `*` while there are unsaved changes.
pub fn tab_title(file_name: Option<&str>, dirty: bool) -> (r: String)
    ensures
        dirty ==> r@ == "*"@ + match file_name {
            Some(n) => n@,
            None => "Untitled"@,
        },
        !dirty ==> r@ == match file_name {
            Some(n) => n@,
            None => "Untitled"@,
        },
{
    let base = match file_name {
        Some(n) => n,
        None => "Untitled",
    };
    if dirty {
        let mut out = String::from_str("*");
        out.append(base);
        out
    } else {
        String::from_str(base)
    }
}

} // verus!
