//! Lengths and percentages, and the decimal text of numbers.
use vstd::prelude::*;

verus! {

/// The character of a decimal digit `d`, for `d < 10`.
pub open spec fn digit_char(d: nat) -> char {
    if d == 0 {
        '0'
    } else if d == 1 {
        '1'
    } else if d == 2 {
        '2'
    } else if d == 3 {
        '3'
    } else if d == 4 {
        '4'
    } else if d == 5 {
        '5'
    } else if d == 6 {
        '6'
    } else if d == 7 {
        '7'
    } else if d == 8 {
        '8'
    } else {
        '9'
    }
}

/// The decimal digits of `n`, most significant first, without leading zeros ("0" for zero).
pub open spec fn nat_digits(n: nat) -> Seq<char>
    decreases n,
{
    if n < 10 {
        seq![digit_char(n)]
    } else {
        nat_digits(n / 10).push(digit_char(n % 10))
    }
}

/// The text of an integer: its digits, after a minus sign when it is negative.
pub open spec fn int_text(i: int) -> Seq<char> {
    if i < 0 {
        seq!['-'] + nat_digits((-i) as nat)
    } else {
        nat_digits(i as nat)
    }
}

/// The last `w` decimal digits of `n`, padded with leading zeros to exactly `w` characters.
pub open spec fn fixed_digits(n: nat, w: nat) -> Seq<char>
    decreases w,
{
    if w == 0 {
        Seq::empty()
    } else {
        fixed_digits(n / 10, (w - 1) as nat).push(digit_char(n % 10))
    }
}

/// `n` with its last `w` decimal digits removed, that is `n / 10^w`.
pub open spec fn shift_right(n: nat, w: nat) -> nat
    decreases w,
{
    if w == 0 {
        n
    } else {
        shift_right(n / 10, (w - 1) as nat)
    }
}

/// The text of `n / 10^w` with all `w` fractional digits written out.
pub open spec fn point_text(n: nat, w: nat) -> Seq<char> {
    if w == 0 {
        nat_digits(n)
    } else {
        nat_digits(shift_right(n, w)) + seq!['.'] + fixed_digits(n, w)
    }
}

/// The shortest text of `n / 10^w`: trailing zeros of the fraction are dropped, and the
/// point with them when no fractional digit is left.
pub open spec fn trimmed_text(n: nat, w: nat) -> Seq<char>
    decreases w,
{
    if w > 0 && n % 10 == 0 {
        trimmed_text(n / 10, (w - 1) as nat)
    } else {
        point_text(n, w)
    }
}

/// The absolute value of `i`.
pub open spec fn magnitude(i: int) -> nat {
    if i < 0 {
        (-i) as nat
    } else {
        i as nat
    }
}

fn digit_str(d: u64) -> (s: &'static str)
    requires
        d < 10,
    ensures
        s@ == seq![digit_char(d as nat)],
{
    if d == 0 {
        proof { reveal_strlit("0"); }
        "0"
    } else if d == 1 {
        proof { reveal_strlit("1"); }
        "1"
    } else if d == 2 {
        proof { reveal_strlit("2"); }
        "2"
    } else if d == 3 {
        proof { reveal_strlit("3"); }
        "3"
    } else if d == 4 {
        proof { reveal_strlit("4"); }
        "4"
    } else if d == 5 {
        proof { reveal_strlit("5"); }
        "5"
    } else if d == 6 {
        proof { reveal_strlit("6"); }
        "6"
    } else if d == 7 {
        proof { reveal_strlit("7"); }
        "7"
    } else if d == 8 {
        proof { reveal_strlit("8"); }
        "8"
    } else {
        proof { reveal_strlit("9"); }
        "9"
    }
}

/// Appends the decimal digits of `n` to `out`.
pub fn push_digits(out: &mut String, n: u64)
    ensures
        final(out)@ == old(out)@ + nat_digits(n as nat),
    decreases n,
{
    if n >= 10 {
        push_digits(out, n / 10);
    }
    out.append(digit_str(n % 10));
    assert(final(out)@ =~= old(out)@ + nat_digits(n as nat));
}

/// Appends the last `w` decimal digits of `n`, zero-padded to `w` characters, to `out`.
fn push_fixed(out: &mut String, n: u64, w: u8)
    ensures
        final(out)@ == old(out)@ + fixed_digits(n as nat, w as nat),
    decreases w,
{
    if w > 0 {
        push_fixed(out, n / 10, w - 1);
        out.append(digit_str(n % 10));
    }
    assert(final(out)@ =~= old(out)@ + fixed_digits(n as nat, w as nat));
}

/// Appends the text of the integer `i` to `out`.
pub fn push_int(out: &mut String, i: i64)
    ensures
        final(out)@ == old(out)@ + int_text(i as int),
{
    if i < 0 {
        proof { reveal_strlit("-"); }
        out.append("-");
        let m: u64 = if i == i64::MIN {
            9223372036854775808u64
        } else {
            (-i) as u64
        };
        push_digits(out, m);
        assert(final(out)@ =~= old(out)@ + int_text(i as int));
    } else {
        push_digits(out, i as u64);
    }
}

/// A number written in decimal: `mantissa / 10^scale`.
#[derive(Clone, Copy, Debug, PartialEq, Eq, Structural)]
pub struct DecimalValue {
    pub mantissa: i64,
    pub scale: u8,
}

impl DecimalValue {
    /// The number `mantissa / 10^scale`.
    pub fn new(mantissa: i64, scale: u8) -> (r: DecimalValue)
        ensures
            r.mantissa == mantissa,
            r.scale == scale,
    {
        DecimalValue { mantissa, scale }
    }

    /// The shortest text of the number: a minus sign when it is negative, the integer part,
    /// then a point and the fraction without trailing zeros, if any fraction is left.
    pub open spec fn spec_text(self) -> Seq<char> {
        (if self.mantissa < 0 {
            seq!['-']
        } else {
            Seq::empty()
        }) + trimmed_text(magnitude(self.mantissa as int), self.scale as nat)
    }

    /// Appends the text of the number to `out`.
    pub fn push_text(&self, out: &mut String)
        ensures
            final(out)@ == old(out)@ + self.spec_text(),
    {
        let mut mag: u64 = if self.mantissa >= 0 {
            self.mantissa as u64
        } else if self.mantissa == i64::MIN {
            9223372036854775808u64
        } else {
            (-self.mantissa) as u64
        };
        let mut w: u8 = self.scale;
        while w > 0 && mag % 10 == 0
            invariant
                trimmed_text(mag as nat, w as nat) == trimmed_text(
                    magnitude(self.mantissa as int),
                    self.scale as nat,
                ),
            decreases w,
        {
            mag = mag / 10;
            w = w - 1;
        }
        let ghost start = out@;
        if self.mantissa < 0 {
            proof { reveal_strlit("-"); }
            out.append("-");
        }
        assert(trimmed_text(mag as nat, w as nat) == point_text(mag as nat, w as nat));
        if w == 0 {
            push_digits(out, mag);
        } else {
            let mut whole: u64 = mag;
            let mut k: u8 = w;
            while k > 0
                invariant
                    shift_right(whole as nat, k as nat) == shift_right(mag as nat, w as nat),
                decreases k,
            {
                whole = whole / 10;
                k = k - 1;
            }
            push_digits(out, whole);
            proof { reveal_strlit("."); }
            out.append(".");
            push_fixed(out, mag, w);
        }
        assert(out@ =~= start + self.spec_text());
    }

    /// The text of the number (see `spec_text`).
    pub fn to_string(&self) -> (r: String)
        ensures
            r@ == self.spec_text(),
    {
        let mut r = String::new();
        self.push_text(&mut r);
        assert(r@ =~= self.spec_text());
        r
    }
}

/// A length or a percentage, as SVG writes coordinates and sizes.
#[derive(Clone, Copy, Debug, PartialEq, Eq, Structural)]
pub enum LengthOrPercentage {
    Number(usize),
    Em(usize),
    Ex(usize),
    Pixels(usize),
    Inch(DecimalValue),
    Cm(DecimalValue),
    Mm(DecimalValue),
    Point(usize),
    Pica(usize),
    Percentage(DecimalValue),
}

impl LengthOrPercentage {
    /// The canonical text: the magnitude, then the unit's suffix (none for a plain number).
    pub open spec fn spec_text(self) -> Seq<char> {
        match self {
            LengthOrPercentage::Number(n) => nat_digits(n as nat),
            LengthOrPercentage::Em(n) => nat_digits(n as nat) + seq!['e', 'm'],
            LengthOrPercentage::Ex(n) => nat_digits(n as nat) + seq!['e', 'x'],
            LengthOrPercentage::Pixels(n) => nat_digits(n as nat) + seq!['p', 'x'],
            LengthOrPercentage::Inch(d) => d.spec_text() + seq!['i', 'n'],
            LengthOrPercentage::Cm(d) => d.spec_text() + seq!['c', 'm'],
            LengthOrPercentage::Mm(d) => d.spec_text() + seq!['m', 'm'],
            LengthOrPercentage::Point(n) => nat_digits(n as nat) + seq!['p', 't'],
            LengthOrPercentage::Pica(n) => nat_digits(n as nat) + seq!['p', 'c'],
            LengthOrPercentage::Percentage(d) => d.spec_text() + seq!['%'],
        }
    }

    /// The canonical text of the value (see `spec_text`).
    pub fn to_string(&self) -> (r: String)
        ensures
            r@ == self.spec_text(),
    {
        let mut r = String::new();
        let suffix: &str = match self {
            LengthOrPercentage::Number(n) => {
                push_digits(&mut r, *n as u64);
                proof { reveal_strlit(""); }
                ""
            },
            LengthOrPercentage::Em(n) => {
                push_digits(&mut r, *n as u64);
                proof { reveal_strlit("em"); }
                "em"
            },
            LengthOrPercentage::Ex(n) => {
                push_digits(&mut r, *n as u64);
                proof { reveal_strlit("ex"); }
                "ex"
            },
            LengthOrPercentage::Pixels(n) => {
                push_digits(&mut r, *n as u64);
                proof { reveal_strlit("px"); }
                "px"
            },
            LengthOrPercentage::Inch(d) => {
                d.push_text(&mut r);
                proof { reveal_strlit("in"); }
                "in"
            },
            LengthOrPercentage::Cm(d) => {
                d.push_text(&mut r);
                proof { reveal_strlit("cm"); }
                "cm"
            },
            LengthOrPercentage::Mm(d) => {
                d.push_text(&mut r);
                proof { reveal_strlit("mm"); }
                "mm"
            },
            LengthOrPercentage::Point(n) => {
                push_digits(&mut r, *n as u64);
                proof { reveal_strlit("pt"); }
                "pt"
            },
            LengthOrPercentage::Pica(n) => {
                push_digits(&mut r, *n as u64);
                proof { reveal_strlit("pc"); }
                "pc"
            },
            LengthOrPercentage::Percentage(d) => {
                d.push_text(&mut r);
                proof { reveal_strlit("%"); }
                "%"
            },
        };
        r.append(suffix);
        assert(r@ =~= self.spec_text());
        r
    }
}

} // verus!
