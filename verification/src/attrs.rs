//! Per-cell style attributes and their SGR (Select Graphic Rendition)
//! escape-sequence encoding.

use vstd::prelude::*;

verus! {

/// A terminal color: the terminal's default, an indexed palette entry, or a
/// direct red/green/blue triple.
#[derive(Clone, Copy, Debug, PartialEq, Eq, Structural)]
pub enum Color {
    Default,
    Idx(u8),
    Rgb(u8, u8, u8),
}

impl Default for Color {
    fn default() -> (r: Self)
        ensures
            r == Color::Default,
    {
        Color::Default
    }
}

/// The style attributes of one cell: foreground and background colors plus
/// the common display flags.
#[derive(Clone, Copy, Debug, PartialEq, Eq, Structural)]
pub struct Attrs {
    pub fgcolor: Color,
    pub bgcolor: Color,
    pub bold: bool,
    pub italic: bool,
    pub underline: bool,
    pub inverse: bool,
}

impl Attrs {
    /// The attribute state a terminal starts in, and the one `ESC [ m`
    /// resets to.
    pub open spec fn spec_default() -> Attrs {
        Attrs {
            fgcolor: Color::Default,
            bgcolor: Color::Default,
            bold: false,
            italic: false,
            underline: false,
            inverse: false,
        }
    }

    pub fn new() -> (r: Attrs)
        ensures
            r == Attrs::spec_default(),
    {
        Attrs {
            fgcolor: Color::Default,
            bgcolor: Color::Default,
            bold: false,
            italic: false,
            underline: false,
            inverse: false,
        }
    }
}

impl Default for Attrs {
    fn default() -> (r: Self)
        ensures
            r == Attrs::spec_default(),
    {
        Attrs::new()
    }
}

/// The decimal digits of `n`, as ASCII bytes, most significant first.
pub open spec fn dec_digits(n: nat) -> Seq<u8>
    decreases n,
{
    if n < 10 {
        seq![(48 + n) as u8]
    } else {
        dec_digits(n / 10).push((48 + n % 10) as u8)
    }
}

/// Appends the decimal digits of `n` to `out`.
pub fn push_dec(out: &mut Vec<u8>, n: u32)
    ensures
        final(out)@ == old(out)@ + dec_digits(n as nat),
    decreases n as int,
{
    if n >= 10 {
        push_dec(out, n / 10);
    }
    let d: u8 = (n % 10) as u8 + 48;
    out.push(d);
    proof {
        if n < 10 {
            assert(out@ =~= old(out)@ + dec_digits(n as nat));
        } else {
            assert(dec_digits(n as nat) == dec_digits((n / 10) as nat).push(d));
            assert(out@ =~= old(out)@ + dec_digits(n as nat));
        }
    }
}

/// The SGR parameter bytes selecting color `c`, where `intro` is the ASCII
/// digit 3 for the foreground and 4 for the background; empty for the default
/// color (covered by the leading reset parameter).
pub open spec fn color_params(intro: u8, c: Color) -> Seq<u8> {
    match c {
        Color::Default => seq![],
        Color::Idx(n) => seq![0x3bu8, intro, 0x38u8, 0x3bu8, 0x35u8, 0x3bu8] + dec_digits(n as nat),
        Color::Rgb(r, g, b) => seq![0x3bu8, intro, 0x38u8, 0x3bu8, 0x32u8, 0x3bu8] + dec_digits(r as nat)
            + seq![0x3bu8] + dec_digits(g as nat) + seq![0x3bu8] + dec_digits(b as nat),
    }
}

/// The SGR parameter bytes for one boolean flag.
pub open spec fn flag_param(on: bool, code: u8) -> Seq<u8> {
    if on {
        seq![0x3bu8, code]
    } else {
        seq![]
    }
}

/// The full SGR escape sequence that puts a terminal, whatever its current
/// attribute state, into state `a`: a reset parameter followed by one
/// parameter group per non-default field.
pub open spec fn sgr(a: Attrs) -> Seq<u8> {
    seq![0x1bu8, 0x5bu8, 0x30u8] + color_params(0x33u8, a.fgcolor) + color_params(0x34u8, a.bgcolor)
        + flag_param(a.bold, 0x31u8) + flag_param(a.italic, 0x33u8) + flag_param(a.underline, 0x34u8)
        + flag_param(a.inverse, 0x37u8) + seq![0x6du8]
}

fn push_color_params(out: &mut Vec<u8>, intro: u8, c: Color)
    ensures
        final(out)@ == old(out)@ + color_params(intro, c),
{
    match c {
        Color::Default => {
            assert(out@ =~= old(out)@ + color_params(intro, c));
        },
        Color::Idx(n) => {
            out.push(0x3bu8);
            out.push(intro);
            out.push(0x38u8);
            out.push(0x3bu8);
            out.push(0x35u8);
            out.push(0x3bu8);
            push_dec(out, n as u32);
            assert(out@ =~= old(out)@ + color_params(intro, c));
        },
        Color::Rgb(r, g, b) => {
            out.push(0x3bu8);
            out.push(intro);
            out.push(0x38u8);
            out.push(0x3bu8);
            out.push(0x32u8);
            out.push(0x3bu8);
            push_dec(out, r as u32);
            out.push(0x3bu8);
            push_dec(out, g as u32);
            out.push(0x3bu8);
            push_dec(out, b as u32);
            assert(out@ =~= old(out)@ + color_params(intro, c));
        },
    }
}

/// Appends the SGR escape sequence for `a` to `out`.
#[verifier::rlimit(50)]
pub fn push_sgr(out: &mut Vec<u8>, a: Attrs)
    ensures
        final(out)@ == old(out)@ + sgr(a),
{
    out.push(0x1b);
    out.push(0x5bu8);
    out.push(0x30u8);
    let ghost mut partial: Seq<u8> = seq![0x1bu8, 0x5bu8, 0x30u8];
    assert(out@ =~= old(out)@ + partial);
    push_color_params(out, 0x33u8, a.fgcolor);
    proof {
        vstd::seq_lib::lemma_concat_associative(old(out)@, partial, color_params(0x33u8, a.fgcolor));
        partial = partial + color_params(0x33u8, a.fgcolor);
    }
    push_color_params(out, 0x34u8, a.bgcolor);
    proof {
        vstd::seq_lib::lemma_concat_associative(old(out)@, partial, color_params(0x34u8, a.bgcolor));
        partial = partial + color_params(0x34u8, a.bgcolor);
    }
    if a.bold {
        out.push(0x3bu8);
        out.push(0x31u8);
        assert(out@ =~= (old(out)@ + partial) + flag_param(a.bold, 0x31u8));
    } else {
        assert(out@ =~= (old(out)@ + partial) + flag_param(a.bold, 0x31u8));
    }
    proof {
        vstd::seq_lib::lemma_concat_associative(old(out)@, partial, flag_param(a.bold, 0x31u8));
        partial = partial + flag_param(a.bold, 0x31u8);
    }
    if a.italic {
        out.push(0x3bu8);
        out.push(0x33u8);
        assert(out@ =~= (old(out)@ + partial) + flag_param(a.italic, 0x33u8));
    } else {
        assert(out@ =~= (old(out)@ + partial) + flag_param(a.italic, 0x33u8));
    }
    proof {
        vstd::seq_lib::lemma_concat_associative(old(out)@, partial, flag_param(a.italic, 0x33u8));
        partial = partial + flag_param(a.italic, 0x33u8);
    }
    if a.underline {
        out.push(0x3bu8);
        out.push(0x34u8);
        assert(out@ =~= (old(out)@ + partial) + flag_param(a.underline, 0x34u8));
    } else {
        assert(out@ =~= (old(out)@ + partial) + flag_param(a.underline, 0x34u8));
    }
    proof {
        vstd::seq_lib::lemma_concat_associative(old(out)@, partial, flag_param(a.underline, 0x34u8));
        partial = partial + flag_param(a.underline, 0x34u8);
    }
    if a.inverse {
        out.push(0x3bu8);
        out.push(0x37u8);
        assert(out@ =~= (old(out)@ + partial) + flag_param(a.inverse, 0x37u8));
    } else {
        assert(out@ =~= (old(out)@ + partial) + flag_param(a.inverse, 0x37u8));
    }
    proof {
        vstd::seq_lib::lemma_concat_associative(old(out)@, partial, flag_param(a.inverse, 0x37u8));
        partial = partial + flag_param(a.inverse, 0x37u8);
    }
    out.push(0x6du8);
    proof {
        vstd::seq_lib::lemma_concat_associative(old(out)@, partial, seq![0x6du8]);
        assert(out@ =~= (old(out)@ + partial) + seq![0x6du8]);
        assert(partial + seq![0x6du8] == sgr(a));
    }
}

} // verus!
