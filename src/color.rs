use vstd::prelude::*;

verus! {

/// A colour with an alpha channel, as a theme hands it out.
#[derive(Debug, Clone, Copy, PartialEq, Eq, Structural)]
pub struct Rgba {
    pub r: u8,
    pub g: u8,
    pub b: u8,
    pub a: u8,
}

/// An opaque colour: what a style span paints its text with.
#[derive(Debug, Clone, Copy, PartialEq, Eq, Structural)]
pub struct Rgb {
    pub r: u8,
    pub g: u8,
    pub b: u8,
}

/// Upper-case hexadecimal digit of a value below sixteen.
pub open spec fn hex_digit(d: u8) -> char
    recommends
        d < 16,
{
    if d < 10 {
        (('0' as u8) + d) as char
    } else {
        (('A' as u8) + (d - 10)) as char
    }
}

/// The two digits of a byte, high nibble first.
pub open spec fn hex_byte(x: u8) -> Seq<char> {
    seq![hex_digit(x / 16), hex_digit(x % 16)]
}

/// `RRGGBB`: the colour in upper-case hexadecimal.
pub open spec fn hex_rgb(c: Rgb) -> Seq<char> {
    hex_byte(c.r) + hex_byte(c.g) + hex_byte(c.b)
}

/// `#RRGGBB`: the key under which a colour's style handle is cached.
pub open spec fn color_key(c: Rgb) -> Seq<char> {
    seq!['#'] + hex_rgb(c)
}

/// `syn_RRGGBB`: the name a colour's style handle is registered under.
pub open spec fn tag_name(c: Rgb) -> Seq<char> {
    seq!['s', 'y', 'n', '_'] + hex_rgb(c)
}

const HEX_DIGITS: &'static str = "0123456789ABCDEF";

fn push_hex_digit(out: &mut String, d: u8)
    requires
        d < 16,
    ensures
        final(out)@ == old(out)@.push(hex_digit(d)),
{
    proof {
        reveal_strlit("0123456789ABCDEF");
    }
    assert(HEX_DIGITS.is_ascii());
    let idx = d as usize;
    let digit = HEX_DIGITS.substring_ascii(idx, idx + 1);
    assert(digit@ =~= seq![hex_digit(d)]);
    out.append(digit);
}

fn push_hex_byte(out: &mut String, x: u8)
    ensures
        final(out)@ == old(out)@ + hex_byte(x),
{
    push_hex_digit(out, x / 16);
    push_hex_digit(out, x % 16);
    assert(final(out)@ =~= old(out)@ + hex_byte(x));
}

impl Rgba {
    /// Whether the colour shows at all: a fully transparent colour styles nothing.
    pub open spec fn spec_visible(&self) -> bool {
        self.a > 0
    }

    /// Whether the colour shows at all: a fully transparent colour styles nothing.
    #[verifier::when_used_as_spec(spec_visible)]
    pub fn visible(&self) -> (r: bool)
        ensures
            r == self.spec_visible(),
    {
        self.a > 0
    }

    /// The colour without its alpha channel.
    pub open spec fn spec_opaque(&self) -> Rgb {
        Rgb { r: self.r, g: self.g, b: self.b }
    }

    /// The colour without its alpha channel.
    #[verifier::when_used_as_spec(spec_opaque)]
    pub fn opaque(&self) -> (r: Rgb)
        ensures
            r == self.spec_opaque(),
    {
        Rgb { r: self.r, g: self.g, b: self.b }
    }
}

impl Rgb {
    /// `#RRGGBB`, upper-case: the cache key and the foreground value of this colour.
    pub fn key(&self) -> (r: String)
        ensures
            r@ == color_key(*self),
    {
        let mut out = String::from_str("#");
        proof {
            reveal_strlit("#");
        }
        push_hex_byte(&mut out, self.r);
        push_hex_byte(&mut out, self.g);
        push_hex_byte(&mut out, self.b);
        assert(out@ =~= color_key(*self));
        out
    }

    /// `syn_RRGGBB`, upper-case: the name of this colour's style handle.
    pub fn tag_name(&self) -> (r: String)
        ensures
            r@ == tag_name(*self),
    {
        let mut out = String::from_str("syn_");
        proof {
            reveal_strlit("syn_");
        }
        push_hex_byte(&mut out, self.r);
        push_hex_byte(&mut out, self.g);
        push_hex_byte(&mut out, self.b);
        assert(out@ =~= tag_name(*self));
        out
    }
}

} // verus!
