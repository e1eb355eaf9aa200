//! Mana colors, mana amounts, and the payment-sufficiency rule.

use vstd::prelude::*;

verus! {

/// One of the five colors of mana, colorless mana, or the wildcard "any
/// color" component that some abilities produce.
#[derive(Copy, Clone, Debug, Hash, Eq, PartialEq, Structural)]
pub enum Color {
    Colorless,
    White,
    Blue,
    Black,
    Red,
    Green,
    Any,
}

/// An amount of mana of each color.  Used both for pools (what a player
/// holds) and for costs (what a card asks for).
#[derive(Debug, Clone, Copy, Hash, PartialEq, Eq, Structural)]
pub struct Mana {
    pub red: u8,
    pub white: u8,
    pub blue: u8,
    pub black: u8,
    pub green: u8,
    pub colorless: u8,
    pub any: u8,
}

impl Mana {
    /// The empty amount: no mana of any color.
    pub fn new() -> (r: Mana)
        ensures
            r == Mana::zero(),
    {
        Mana { red: 0, white: 0, blue: 0, black: 0, green: 0, colorless: 0, any: 0 }
    }

    /// The empty amount, as a spec-level constant.
    pub open spec fn zero() -> Mana {
        Mana { red: 0, white: 0, blue: 0, black: 0, green: 0, colorless: 0, any: 0 }
    }

    /// The amount stored for one color, as a spec-level lookup.
    pub open spec fn spec_get(self, color: Color) -> u8 {
        match color {
            Color::Colorless => self.colorless,
            Color::White => self.white,
            Color::Blue => self.blue,
            Color::Black => self.black,
            Color::Red => self.red,
            Color::Green => self.green,
            Color::Any => self.any,
        }
    }

    /// `self` with the amount for one color replaced.
    pub open spec fn spec_set(self, color: Color, amount: u8) -> Mana {
        match color {
            Color::Colorless => Mana { colorless: amount, ..self },
            Color::White => Mana { white: amount, ..self },
            Color::Blue => Mana { blue: amount, ..self },
            Color::Black => Mana { black: amount, ..self },
            Color::Red => Mana { red: amount, ..self },
            Color::Green => Mana { green: amount, ..self },
            Color::Any => Mana { any: amount, ..self },
        }
    }

    pub fn set(&mut self, color: &Color, amount: u8)
        ensures
            *final(self) == old(self).spec_set(*color, amount),
    {
        match color {
            Color::Colorless => self.colorless = amount,
            Color::White => self.white = amount,
            Color::Blue => self.blue = amount,
            Color::Black => self.black = amount,
            Color::Red => self.red = amount,
            Color::Green => self.green = amount,
            Color::Any => self.any = amount,
        }
    }

    pub fn get(&self, color: &Color) -> (r: u8)
        ensures
            r == self.spec_get(*color),
    {
        match color {
            Color::Colorless => self.colorless,
            Color::White => self.white,
            Color::Blue => self.blue,
            Color::Black => self.black,
            Color::Red => self.red,
            Color::Green => self.green,
            Color::Any => self.any,
        }
    }

    /// Whether any mana of the given color is present.
    pub fn has(&self, color: &Color) -> (r: bool)
        ensures
            r == (self.spec_get(*color) > 0),
    {
        self.get(color) > 0
    }

    /// The total amount of colored and colorless mana.  The wildcard `any`
    /// component is not an amount that can be spent, so it does not count.
    pub open spec fn total(self) -> int {
        self.white + self.red + self.green + self.blue + self.black + self.colorless
    }

    /// Whether this pool can pay the cost `cost`: every colored requirement
    /// is covered in kind, and the colorless requirement is covered by
    /// colorless mana plus whatever colored mana is left over.  A wildcard
    /// (`any`) component of the cost asks for no mana.
    pub open spec fn enough_spec(self, cost: Mana) -> bool {
        &&& self.white >= cost.white
        &&& self.blue >= cost.blue
        &&& self.black >= cost.black
        &&& self.red >= cost.red
        &&& self.green >= cost.green
        &&& (self.white - cost.white) + (self.blue - cost.blue) + (self.black - cost.black) + (
        self.red - cost.red) + (self.green - cost.green) + self.colorless >= cost.colorless
    }

    /// Returns the converted mana cost: the total of all colored and
    /// colorless components.
    pub fn cmc(&self) -> (r: u16)
        ensures
            r == self.total(),
    {
        self.white as u16 + self.red as u16 + self.green as u16 + self.blue as u16
            + self.black as u16 + self.colorless as u16
    }

    /// Determines whether this mana is enough for paying the specified mana
    /// cost.  Colored requirements must be paid in kind; the colorless
    /// requirement may be paid from colorless mana or from any colored
    /// surplus.
    pub fn enough(&self, mana: &Mana) -> (r: bool)
        ensures
            r == self.enough_spec(*mana),
    {
        if self.white < mana.white || self.blue < mana.blue || self.black < mana.black
            || self.red < mana.red || self.green < mana.green {
            return false;
        }
        let surplus: u32 = (self.white - mana.white) as u32 + (self.blue - mana.blue) as u32 + (
        self.black - mana.black) as u32 + (self.red - mana.red) as u32 + (self.green
            - mana.green) as u32 + self.colorless as u32;
        surplus >= mana.colorless as u32
    }

    /// The nonzero colored and colorless components, in the fixed order
    /// white, red, green, blue, black, colorless.  The `any` component is
    /// never listed.
    pub open spec fn iter_spec(self) -> Seq<(Color, u8)> {
        let s = Seq::<(Color, u8)>::empty();
        let s = if self.white > 0 { s.push((Color::White, self.white)) } else { s };
        let s = if self.red > 0 { s.push((Color::Red, self.red)) } else { s };
        let s = if self.green > 0 { s.push((Color::Green, self.green)) } else { s };
        let s = if self.blue > 0 { s.push((Color::Blue, self.blue)) } else { s };
        let s = if self.black > 0 { s.push((Color::Black, self.black)) } else { s };
        if self.colorless > 0 { s.push((Color::Colorless, self.colorless)) } else { s }
    }

    /// Lists the nonzero colored and colorless components of this amount.
    pub fn iter(&self) -> (r: Vec<(Color, u8)>)
        ensures
            r@ == self.iter_spec(),
    {
        let mut vec: Vec<(Color, u8)> = Vec::new();
        if self.white > 0 {
            vec.push((Color::White, self.white));
        }
        if self.red > 0 {
            vec.push((Color::Red, self.red));
        }
        if self.green > 0 {
            vec.push((Color::Green, self.green));
        }
        if self.blue > 0 {
            vec.push((Color::Blue, self.blue));
        }
        if self.black > 0 {
            vec.push((Color::Black, self.black));
        }
        if self.colorless > 0 {
            vec.push((Color::Colorless, self.colorless));
        }
        vec
    }

    /// Picks `amount` total mana from this pool, color by color in the order
    /// white, red, green, blue, black, colorless, and returns the selection.
    /// Succeeds exactly when the pool holds some spendable mana and at least
    /// `amount` of it.
    pub fn pick_any(&self, amount: u8) -> (r: Option<Mana>)
        ensures
            r is Some <==> self.total() > 0 && self.total() >= amount,
            r matches Some(p) ==> p.total() == amount && p.any == 0 && p.white <= self.white
                && p.red <= self.red && p.green <= self.green && p.blue <= self.blue && p.black
                <= self.black && p.colorless <= self.colorless,
    {
        let mut pick = Mana::new();
        let mut remainder = amount;
        if self.white > 0 {
            if self.white > remainder {
                pick.white = remainder;
                return Some(pick);
            }
            pick.white = self.white;
            remainder = remainder - self.white;
            if remainder == 0 {
                return Some(pick);
            }
        }
        if self.red > 0 {
            if self.red > remainder {
                pick.red = remainder;
                return Some(pick);
            }
            pick.red = self.red;
            remainder = remainder - self.red;
            if remainder == 0 {
                return Some(pick);
            }
        }
        if self.green > 0 {
            if self.green > remainder {
                pick.green = remainder;
                return Some(pick);
            }
            pick.green = self.green;
            remainder = remainder - self.green;
            if remainder == 0 {
                return Some(pick);
            }
        }
        if self.blue > 0 {
            if self.blue > remainder {
                pick.blue = remainder;
                return Some(pick);
            }
            pick.blue = self.blue;
            remainder = remainder - self.blue;
            if remainder == 0 {
                return Some(pick);
            }
        }
        if self.black > 0 {
            if self.black > remainder {
                pick.black = remainder;
                return Some(pick);
            }
            pick.black = self.black;
            remainder = remainder - self.black;
            if remainder == 0 {
                return Some(pick);
            }
        }
        if self.colorless > 0 {
            if self.colorless > remainder {
                pick.colorless = remainder;
                return Some(pick);
            }
            pick.colorless = self.colorless;
            remainder = remainder - self.colorless;
            if remainder == 0 {
                return Some(pick);
            }
        }
        None
    }

    /// `a + b` capped at the largest storable amount.
    pub open spec fn sat_add(a: u8, b: u8) -> u8 {
        if a + b > 255 {
            255u8
        } else {
            (a + b) as u8
        }
    }

    /// `a - b`, or zero where `b` exceeds `a`.
    pub open spec fn sat_sub(a: u8, b: u8) -> u8 {
        if a >= b {
            (a - b) as u8
        } else {
            0u8
        }
    }

    /// Adds the colored and colorless components of `rhs` to this amount,
    /// saturating each color.  The wildcard `any` component is not an amount
    /// of mana and is never transferred.
    pub fn gain(&mut self, rhs: &Mana)
        ensures
            final(self).white == Self::sat_add(old(self).white, rhs.white),
            final(self).red == Self::sat_add(old(self).red, rhs.red),
            final(self).green == Self::sat_add(old(self).green, rhs.green),
            final(self).blue == Self::sat_add(old(self).blue, rhs.blue),
            final(self).black == Self::sat_add(old(self).black, rhs.black),
            final(self).colorless == Self::sat_add(old(self).colorless, rhs.colorless),
            final(self).any == old(self).any,
    {
        self.white = self.white.saturating_add(rhs.white);
        self.red = self.red.saturating_add(rhs.red);
        self.green = self.green.saturating_add(rhs.green);
        self.blue = self.blue.saturating_add(rhs.blue);
        self.black = self.black.saturating_add(rhs.black);
        self.colorless = self.colorless.saturating_add(rhs.colorless);
    }

    /// Removes the colored and colorless components of `rhs` from this
    /// amount, stopping each color at zero.  The wildcard `any` component is
    /// untouched.
    pub fn deduct(&mut self, rhs: &Mana)
        ensures
            final(self).white == Self::sat_sub(old(self).white, rhs.white),
            final(self).red == Self::sat_sub(old(self).red, rhs.red),
            final(self).green == Self::sat_sub(old(self).green, rhs.green),
            final(self).blue == Self::sat_sub(old(self).blue, rhs.blue),
            final(self).black == Self::sat_sub(old(self).black, rhs.black),
            final(self).colorless == Self::sat_sub(old(self).colorless, rhs.colorless),
            final(self).any == old(self).any,
    {
        self.white = self.white.saturating_sub(rhs.white);
        self.red = self.red.saturating_sub(rhs.red);
        self.green = self.green.saturating_sub(rhs.green);
        self.blue = self.blue.saturating_sub(rhs.blue);
        self.black = self.black.saturating_sub(rhs.black);
        self.colorless = self.colorless.saturating_sub(rhs.colorless);
    }
}

/// Whether `c` is a decimal digit.
pub open spec fn is_digit_char(c: char) -> bool {
    '0' <= c && c <= '9'
}

/// Whether `c` is the wildcard marker of a mana string.
pub open spec fn is_star_char(c: char) -> bool {
    c == '*'
}

/// Whether `c` is one of the five color codes of a mana string.
pub open spec fn is_color_char(c: char) -> bool {
    c == 'W' || c == 'U' || c == 'B' || c == 'R' || c == 'G'
}

/// The length of the longest digit prefix of `s`.
pub open spec fn digit_run(s: Seq<char>) -> int
    decreases s.len(),
{
    if s.len() == 0 || !is_digit_char(s[0]) {
        0
    } else {
        1 + digit_run(s.drop_first())
    }
}

/// The length of the longest wildcard-marker prefix of `s`.
pub open spec fn star_run(s: Seq<char>) -> int
    decreases s.len(),
{
    if s.len() == 0 || !is_star_char(s[0]) {
        0
    } else {
        1 + star_run(s.drop_first())
    }
}

/// The length of the longest color-code prefix of `s`.
pub open spec fn color_run(s: Seq<char>) -> int
    decreases s.len(),
{
    if s.len() == 0 || !is_color_char(s[0]) {
        0
    } else {
        1 + color_run(s.drop_first())
    }
}

/// The number read from a digit string, most significant digit first.
pub open spec fn digits_val(s: Seq<char>) -> int
    decreases s.len(),
{
    if s.len() == 0 {
        0
    } else {
        10 * digits_val(s.drop_last()) + (s.last() as int - '0' as int)
    }
}

/// How often the character `c` occurs in `s`.
pub open spec fn count_in(s: Seq<char>, c: char) -> int
    decreases s.len(),
{
    if s.len() == 0 {
        0
    } else {
        count_in(s.drop_last(), c) + if s.last() == c {
            1int
        } else {
            0int
        }
    }
}

/// `n` capped at the largest storable amount.
pub open spec fn cap255(n: int) -> u8 {
    if n > 255 {
        255u8
    } else {
        (n) as u8
    }
}

proof fn lemma_digit_run(s: Seq<char>, i: int)
    requires
        0 <= i <= s.len(),
        forall|j: int| 0 <= j < i ==> is_digit_char(#[trigger] s[j]),
        i == s.len() || !is_digit_char(s[i]),
    ensures
        digit_run(s) == i,
    decreases s.len(),
{
    if i > 0 {
        lemma_digit_run(s.drop_first(), i - 1);
    }
}

proof fn lemma_star_run(s: Seq<char>, i: int)
    requires
        0 <= i <= s.len(),
        forall|j: int| 0 <= j < i ==> is_star_char(#[trigger] s[j]),
        i == s.len() || !is_star_char(s[i]),
    ensures
        star_run(s) == i,
    decreases s.len(),
{
    if i > 0 {
        lemma_star_run(s.drop_first(), i - 1);
    }
}

proof fn lemma_color_run(s: Seq<char>, i: int)
    requires
        0 <= i <= s.len(),
        forall|j: int| 0 <= j < i ==> is_color_char(#[trigger] s[j]),
        i == s.len() || !is_color_char(s[i]),
    ensures
        color_run(s) == i,
    decreases s.len(),
{
    if i > 0 {
        lemma_color_run(s.drop_first(), i - 1);
    }
}

proof fn lemma_count_in_bounds(s: Seq<char>, c: char)
    ensures
        0 <= count_in(s, c) <= s.len(),
    decreases s.len(),
{
    if s.len() > 0 {
        lemma_count_in_bounds(s.drop_last(), c);
    }
}

proof fn lemma_digits_val_nonneg(s: Seq<char>)
    requires
        forall|j: int| 0 <= j < s.len() ==> is_digit_char(#[trigger] s[j]),
    ensures
        digits_val(s) >= 0,
    decreases s.len(),
{
    if s.len() > 0 {
        lemma_digits_val_nonneg(s.drop_last());
    }
}

impl Mana {
    /// The amount described by a mana string: a number for its colorless
    /// component, then wildcard markers, then color codes, as in `"2WWBB"`
    /// or `"*"`.  A number the colorless component cannot store counts as
    /// absent; anything after the color codes is ignored.
    pub open spec fn parse_spec(s: Seq<char>) -> Mana {
        let d = digit_run(s);
        let rest1 = s.subrange(d, s.len() as int);
        let a = star_run(rest1);
        let rest2 = rest1.subrange(a, rest1.len() as int);
        let colored = rest2.subrange(0, color_run(rest2));
        Mana {
            white: cap255(count_in(colored, 'W')),
            blue: cap255(count_in(colored, 'U')),
            black: cap255(count_in(colored, 'B')),
            red: cap255(count_in(colored, 'R')),
            green: cap255(count_in(colored, 'G')),
            colorless: if d >= 1 && digits_val(s.subrange(0, d)) <= 255 {
                digits_val(s.subrange(0, d)) as u8
            } else {
                0u8
            },
            any: (a % 256) as u8,
        }
    }

    /// Reads a mana string such as `"3UU"`, `"RG"` or `"**"`.
    pub fn parse(s: &str) -> (r: Mana)
        ensures
            r == Mana::parse_spec(s@),
    {
        let n = s.unicode_len();
        let mut i: usize = 0;
        let mut val: u32 = 0;
        while i < n && digit_at(s, i)
            invariant
                0 <= i <= n,
                n == s@.len(),
                forall|j: int| 0 <= j < i ==> is_digit_char(#[trigger] s@[j]),
                val <= 2559,
                (val <= 255 && val == digits_val(s@.subrange(0, i as int))) || (val > 255
                    && digits_val(s@.subrange(0, i as int)) > 255),
            decreases n - i,
        {
            let c = s.get_char(i);
            let dig: u32 = c as u32 - 48;
            proof {
                assert(s@.subrange(0, i + 1).drop_last() =~= s@.subrange(0, i as int));
                lemma_digits_val_nonneg(s@.subrange(0, i as int));
            }
            if val <= 255 {
                val = val * 10 + dig;
            }
            i = i + 1;
        }
        let dlen = i;
        proof {
            lemma_digit_run(s@, dlen as int);
        }
        let colorless: u8 = if dlen >= 1 && val <= 255 {
            val as u8
        } else {
            0
        };

        let mut stars: usize = 0;
        while i < n && star_at(s, i)
            invariant
                dlen <= i <= n,
                n == s@.len(),
                i == dlen + stars,
                forall|j: int| dlen <= j < i ==> is_star_char(#[trigger] s@[j]),
            decreases n - i,
        {
            stars = stars + 1;
            i = i + 1;
        }
        proof {
            let rest1 = s@.subrange(dlen as int, n as int);
            lemma_star_run(rest1, stars as int);
        }
        let any: u8 = (stars % 256) as u8;

        let cstart = i;
        let mut white: u8 = 0;
        let mut blue: u8 = 0;
        let mut black: u8 = 0;
        let mut red: u8 = 0;
        let mut green: u8 = 0;
        while i < n && color_at(s, i)
            invariant
                cstart <= i <= n,
                n == s@.len(),
                forall|j: int| cstart <= j < i ==> is_color_char(#[trigger] s@[j]),
                white == cap255(count_in(s@.subrange(cstart as int, i as int), 'W')),
                blue == cap255(count_in(s@.subrange(cstart as int, i as int), 'U')),
                black == cap255(count_in(s@.subrange(cstart as int, i as int), 'B')),
                red == cap255(count_in(s@.subrange(cstart as int, i as int), 'R')),
                green == cap255(count_in(s@.subrange(cstart as int, i as int), 'G')),
            decreases n - i,
        {
            let c = s.get_char(i);
            proof {
                assert(s@.subrange(cstart as int, i + 1).drop_last() =~= s@.subrange(
                    cstart as int,
                    i as int,
                ));
                lemma_count_in_bounds(s@.subrange(cstart as int, i as int), 'W');
                lemma_count_in_bounds(s@.subrange(cstart as int, i as int), 'U');
                lemma_count_in_bounds(s@.subrange(cstart as int, i as int), 'B');
                lemma_count_in_bounds(s@.subrange(cstart as int, i as int), 'R');
                lemma_count_in_bounds(s@.subrange(cstart as int, i as int), 'G');
            }
            if c == 'W' {
                white = white.saturating_add(1);
            } else if c == 'U' {
                blue = blue.saturating_add(1);
            } else if c == 'B' {
                black = black.saturating_add(1);
            } else if c == 'R' {
                red = red.saturating_add(1);
            } else {
                green = green.saturating_add(1);
            }
            i = i + 1;
        }
        proof {
            let rest2 = s@.subrange(cstart as int, n as int);
            lemma_color_run(rest2, i - cstart);
            assert(rest2.subrange(0, color_run(rest2)) =~= s@.subrange(cstart as int, i as int));
            assert(s@.subrange(dlen as int, n as int).subrange(
                stars as int,
                s@.subrange(dlen as int, n as int).len() as int,
            ) =~= rest2);
        }
        Mana { white, blue, black, red, green, colorless, any }
    }
}

/// Whether the character at `i` is a decimal digit.
fn digit_at(s: &str, i: usize) -> (r: bool)
    requires
        i < s@.len(),
    ensures
        r == is_digit_char(s@[i as int]),
{
    let c = s.get_char(i);
    '0' <= c && c <= '9'
}

/// Whether the character at `i` is the wildcard marker.
fn star_at(s: &str, i: usize) -> (r: bool)
    requires
        i < s@.len(),
    ensures
        r == is_star_char(s@[i as int]),
{
    s.get_char(i) == '*'
}

/// Whether the character at `i` is a color code.
fn color_at(s: &str, i: usize) -> (r: bool)
    requires
        i < s@.len(),
    ensures
        r == is_color_char(s@[i as int]),
{
    let c = s.get_char(i);
    c == 'W' || c == 'U' || c == 'B' || c == 'R' || c == 'G'
}

impl<'a> From<&'a str> for Mana {
    /// Reads a mana string; see [`Mana::parse_spec`].
    fn from(value: &'a str) -> (r: Mana)
        ensures
            r == Mana::parse_spec(value@),
    {
        Mana::parse(value)
    }
}

impl<'a> vstd::std_specs::convert::FromSpecImpl<&'a str> for Mana {
    open spec fn obeys_from_spec() -> bool {
        true
    }

    open spec fn from_spec(v: &'a str) -> Mana {
        Mana::parse_spec(v@)
    }
}

impl Mana {
    /// The amount built by storing each listed component in turn.
    pub open spec fn from_pairs_spec(s: Seq<(Color, u8)>) -> Mana
        decreases s.len(),
    {
        if s.len() == 0 {
            Mana::zero()
        } else {
            Mana::from_pairs_spec(s.drop_last()).spec_set(s.last().0, s.last().1)
        }
    }
}

impl<const N: usize> From<[(Color, u8); N]> for Mana {
    /// Builds an amount from listed color components, later entries
    /// overriding earlier ones of the same color.
    fn from(value: [(Color, u8); N]) -> (r: Mana)
        ensures
            r == Mana::from_pairs_spec(value@),
    {
        let mut mana = Mana::new();
        let mut i: usize = 0;
        while i < N
            invariant
                0 <= i <= N,
                value@.len() == N,
                mana == Mana::from_pairs_spec(value@.subrange(0, i as int)),
            decreases N - i,
        {
            proof {
                assert(value@.subrange(0, i + 1).drop_last() =~= value@.subrange(0, i as int));
            }
            let pair = value[i];
            mana.set(&pair.0, pair.1);
            i = i + 1;
        }
        proof {
            assert(value@.subrange(0, N as int) =~= value@);
        }
        mana
    }
}

impl<const N: usize> vstd::std_specs::convert::FromSpecImpl<[(Color, u8); N]> for Mana {
    open spec fn obeys_from_spec() -> bool {
        true
    }

    open spec fn from_spec(v: [(Color, u8); N]) -> Mana {
        Mana::from_pairs_spec(v@)
    }
}

} // verus!
