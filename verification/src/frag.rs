//! Grammar-fragment categories recorded by the highlighter, and the
//! small data types shared with the front ends.

use vstd::prelude::*;
use vstd::string::StringExecFns;

verus! {

/// A grammar category that the highlighter records byte ranges for.
#[derive(Clone, Copy, Debug, PartialEq, Eq, Hash, Structural)]
pub enum FragSpecs {
    Block,
    Expr,
    Ident,
    Item,
    Lifetime,
    Literal,
    Meta,
    Pat,
    Path,
    Stmt,
    Ty,
    Vis,
}

impl FragSpecs {
    /// The category's lower-case name, as used in emitted markup.
    pub open spec fn spec_name(self) -> Seq<char> {
        match self {
            FragSpecs::Block => "block"@,
            FragSpecs::Expr => "expr"@,
            FragSpecs::Ident => "ident"@,
            FragSpecs::Item => "item"@,
            FragSpecs::Lifetime => "lifetime"@,
            FragSpecs::Literal => "literal"@,
            FragSpecs::Meta => "meta"@,
            FragSpecs::Pat => "pat"@,
            FragSpecs::Path => "path"@,
            FragSpecs::Stmt => "stmt"@,
            FragSpecs::Ty => "ty"@,
            FragSpecs::Vis => "vis"@,
        }
    }

    pub fn name(&self) -> (r: &'static str)
        ensures
            r@ == self.spec_name(),
    {
        match self {
            FragSpecs::Block => "block",
            FragSpecs::Expr => "expr",
            FragSpecs::Ident => "ident",
            FragSpecs::Item => "item",
            FragSpecs::Lifetime => "lifetime",
            FragSpecs::Literal => "literal",
            FragSpecs::Meta => "meta",
            FragSpecs::Pat => "pat",
            FragSpecs::Path => "path",
            FragSpecs::Stmt => "stmt",
            FragSpecs::Ty => "ty",
            FragSpecs::Vis => "vis",
        }
    }
}

/// The fixed priority order in which categories are painted by the
/// terminal renderer; a later category overwrites an earlier one.
pub open spec fn spec_ordered_frags() -> Seq<FragSpecs> {
    seq![
        FragSpecs::Item,
        FragSpecs::Block,
        FragSpecs::Meta,
        FragSpecs::Stmt,
        FragSpecs::Expr,
        FragSpecs::Vis,
        FragSpecs::Lifetime,
        FragSpecs::Ty,
        FragSpecs::Pat,
        FragSpecs::Path,
        FragSpecs::Ident,
        FragSpecs::Literal,
    ]
}

/// The painting order as a vector.
pub fn ordered_frags() -> (r: Vec<FragSpecs>)
    ensures
        r@ == spec_ordered_frags(),
{
    let mut v: Vec<FragSpecs> = Vec::new();
    v.push(FragSpecs::Item);
    v.push(FragSpecs::Block);
    v.push(FragSpecs::Meta);
    v.push(FragSpecs::Stmt);
    v.push(FragSpecs::Expr);
    v.push(FragSpecs::Vis);
    v.push(FragSpecs::Lifetime);
    v.push(FragSpecs::Ty);
    v.push(FragSpecs::Pat);
    v.push(FragSpecs::Path);
    v.push(FragSpecs::Ident);
    v.push(FragSpecs::Literal);
    proof {
        assert(v@ =~= spec_ordered_frags());
    }
    v
}

/// A highlight colour offered by the selector front end.
#[derive(Clone, Copy, Debug, PartialEq, Eq, Structural)]
pub enum Color {
    BlueViolet,
    Plum,
    LightCoral,
    FireBrick,
    LightPink,
    LightSalmon,
    Orange,
    LightGreen,
    LightSeaGreen,
    Green,
    LightBlue,
    Blue,
    Rgb(u8, u8, u8),
}

/// Decimal spelling of a byte value, without leading zeroes.
pub open spec fn spec_u8_decimal(v: u8) -> Seq<char> {
    let d0 = (48 + (v as int) / 100) as u8 as char;
    let d1 = (48 + ((v as int) / 10) % 10) as u8 as char;
    let d2 = (48 + (v as int) % 10) as u8 as char;
    if v >= 100 {
        seq![d0, d1, d2]
    } else if v >= 10 {
        seq![d1, d2]
    } else {
        seq![d2]
    }
}

/// Append the decimal spelling of `v` to `out`.
fn push_u8_decimal(out: &mut String, v: u8)
    ensures
        final(out)@ == old(out)@ + spec_u8_decimal(v),
{
    let digits = "0123456789";
    proof {
        reveal_strlit("0123456789");
    }
    let ghost before = out@;
    if v >= 100 {
        let d: usize = (v / 100) as usize;
        out.append(digits.substring_ascii(d, d + 1));
        let d1: usize = ((v / 10) % 10) as usize;
        out.append(digits.substring_ascii(d1, d1 + 1));
        let d2: usize = (v % 10) as usize;
        out.append(digits.substring_ascii(d2, d2 + 1));
        proof {
            assert(out@ =~= before + spec_u8_decimal(v));
        }
    } else if v >= 10 {
        let d1: usize = (v / 10) as usize;
        out.append(digits.substring_ascii(d1, d1 + 1));
        let d2: usize = (v % 10) as usize;
        out.append(digits.substring_ascii(d2, d2 + 1));
        proof {
            assert((v / 10) % 10 == v / 10);
            assert(out@ =~= before + spec_u8_decimal(v));
        }
    } else {
        let d2: usize = (v % 10) as usize;
        out.append(digits.substring_ascii(d2, d2 + 1));
        proof {
            assert(out@ =~= before + spec_u8_decimal(v));
        }
    }
}

impl Color {
    /// The CSS colour text the selector shows: the colour keyword, or
    /// `rgb(r, g, b)` for a custom colour.
    pub open spec fn spec_css_name(self) -> Seq<char> {
        match self {
            Color::BlueViolet => "blueviolet"@,
            Color::Plum => "plum"@,
            Color::LightCoral => "lightcoral"@,
            Color::FireBrick => "firebrick"@,
            Color::LightPink => "lightpink"@,
            Color::LightSalmon => "lightsalmon"@,
            Color::Orange => "orange"@,
            Color::LightGreen => "lightgreen"@,
            Color::LightSeaGreen => "lightseagreen"@,
            Color::Green => "green"@,
            Color::LightBlue => "lightblue"@,
            Color::Blue => "blue"@,
            Color::Rgb(r, g, b) => "rgb("@ + spec_u8_decimal(r) + ", "@ + spec_u8_decimal(g)
                + ", "@ + spec_u8_decimal(b) + ")"@,
        }
    }
}

impl Color {
    /// Every offered colour, custom colours represented by one
    /// example value.
    pub fn all() -> (r: Vec<Color>)
        ensures
            r@ == seq![
                Color::BlueViolet,
                Color::Plum,
                Color::LightCoral,
                Color::FireBrick,
                Color::LightPink,
                Color::LightSalmon,
                Color::Orange,
                Color::LightGreen,
                Color::LightSeaGreen,
                Color::Green,
                Color::LightBlue,
                Color::Blue,
                Color::Rgb(0, 0, 0),
            ],
    {
        let mut v: Vec<Color> = Vec::new();
        v.push(Color::BlueViolet);
        v.push(Color::Plum);
        v.push(Color::LightCoral);
        v.push(Color::FireBrick);
        v.push(Color::LightPink);
        v.push(Color::LightSalmon);
        v.push(Color::Orange);
        v.push(Color::LightGreen);
        v.push(Color::LightSeaGreen);
        v.push(Color::Green);
        v.push(Color::LightBlue);
        v.push(Color::Blue);
        v.push(Color::Rgb(0, 0, 0));
        proof {
            assert(v@ =~= seq![
                Color::BlueViolet,
                Color::Plum,
                Color::LightCoral,
                Color::FireBrick,
                Color::LightPink,
                Color::LightSalmon,
                Color::Orange,
                Color::LightGreen,
                Color::LightSeaGreen,
                Color::Green,
                Color::LightBlue,
                Color::Blue,
                Color::Rgb(0, 0, 0),
            ]);
        }
        v
    }

    /// The label the selector lists a colour under: its keyword, or
    /// `custom` for a custom colour.
    pub fn label(&self) -> (r: String)
        ensures
            r@ == (if self is Rgb {
                "custom"@
            } else {
                self.spec_css_name()
            }),
    {
        match self {
            Color::Rgb(..) => String::from_str("custom"),
            c => c.css_name(),
        }
    }

    /// The CSS colour text the selector shows: the colour keyword,
    /// or `rgb(r, g, b)` for a custom colour.
    pub fn css_name(&self) -> (r: String)
        ensures
            r@ == self.spec_css_name(),
    {
        match self {
            Color::BlueViolet => String::from_str("blueviolet"),
            Color::Plum => String::from_str("plum"),
            Color::LightCoral => String::from_str("lightcoral"),
            Color::FireBrick => String::from_str("firebrick"),
            Color::LightPink => String::from_str("lightpink"),
            Color::LightSalmon => String::from_str("lightsalmon"),
            Color::Orange => String::from_str("orange"),
            Color::LightGreen => String::from_str("lightgreen"),
            Color::LightSeaGreen => String::from_str("lightseagreen"),
            Color::Green => String::from_str("green"),
            Color::LightBlue => String::from_str("lightblue"),
            Color::Blue => String::from_str("blue"),
            Color::Rgb(r, g, b) => {
                let mut s = String::from_str("rgb(");
                push_u8_decimal(&mut s, *r);
                s.append(", ");
                push_u8_decimal(&mut s, *g);
                s.append(", ");
                push_u8_decimal(&mut s, *b);
                s.append(")");
                proof {
                    assert(s@ =~= self.spec_css_name());
                }
                s
            },
        }
    }
}

/// One selectable pairing of a grammar category with a colour.
pub struct FragItems {
    pub frag: FragSpecs,
    pub color: Color,
}

/// The front end's state: the categories currently highlighted.
pub struct AppState {
    pub target_frags: Vec<FragSpecs>,
}

} // verus!
