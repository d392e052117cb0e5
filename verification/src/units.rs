use vstd::prelude::*;

verus! {

/// Size of a disk sector, in bytes.
pub const SECTOR_SIZE: u64 = 512;

/// Binary (IEC) multiples.
pub const KI: u64 = 1024;
pub const MI: u64 = 1048576;
pub const GI: u64 = 1073741824;
pub const TI: u64 = 1099511627776;
pub const PI: u64 = 1125899906842624;
pub const EI: u64 = 1152921504606846976;

/// A quantity of 512-byte sectors.
#[derive(Debug, Clone, Copy, PartialEq, Eq, Structural, Hash)]
pub struct Sectors(pub u64);

/// A quantity of bytes.
#[derive(Debug, Clone, Copy, PartialEq, Eq, Structural, Hash)]
pub struct Bytes(pub u128);

impl Sectors {
    /// The number of bytes covered by these sectors.
    pub fn bytes(&self) -> (r: Bytes)
        ensures
            r.0 == self.0 * 512,
    {
        Bytes(self.0 as u128 * 512)
    }

    pub fn add(&self, other: Sectors) -> (r: Sectors)
        requires
            self.0 + other.0 <= u64::MAX,
        ensures
            r.0 == self.0 + other.0,
    {
        Sectors(self.0 + other.0)
    }

    pub fn sub(&self, other: Sectors) -> (r: Sectors)
        requires
            self.0 >= other.0,
        ensures
            r.0 == self.0 - other.0,
    {
        Sectors(self.0 - other.0)
    }
}

impl Bytes {
    /// The number of whole sectors these bytes fill; a partial sector is
    /// dropped.
    pub fn sectors(&self) -> (r: Sectors)
        requires
            self.0 / 512 <= u64::MAX,
        ensures
            r.0 == self.0 / 512,
    {
        Sectors((self.0 / 512) as u64)
    }
}

/// The character of a decimal digit.
pub open spec fn digit_char(d: nat) -> char {
    (d + 48) as char
}

/// The decimal text of a number, without leading zeros.
pub open spec fn decimal_text(n: nat) -> Seq<char>
    decreases n,
{
    if n < 10 {
        seq![digit_char(n)]
    } else {
        decimal_text(n / 10).push(digit_char(n % 10))
    }
}

/// The text of a digit.
fn digit_str(d: u128) -> (r: &'static str)
    requires
        d < 10,
    ensures
        r@ == seq![digit_char(d as nat)],
{
    proof {
        reveal_strlit("0");
        reveal_strlit("1");
        reveal_strlit("2");
        reveal_strlit("3");
        reveal_strlit("4");
        reveal_strlit("5");
        reveal_strlit("6");
        reveal_strlit("7");
        reveal_strlit("8");
        reveal_strlit("9");
    }
    if d == 0 {
        "0"
    } else if d == 1 {
        "1"
    } else if d == 2 {
        "2"
    } else if d == 3 {
        "3"
    } else if d == 4 {
        "4"
    } else if d == 5 {
        "5"
    } else if d == 6 {
        "6"
    } else if d == 7 {
        "7"
    } else if d == 8 {
        "8"
    } else {
        "9"
    }
}

/// The decimal text of a number.
pub fn decimal_string(n: u128) -> (r: String)
    ensures
        r@ == decimal_text(n as nat),
    decreases n,
{
    if n < 10 {
        String::from_str(digit_str(n))
    } else {
        let mut s = decimal_string(n / 10);
        s.append(digit_str(n % 10));
        s
    }
}

/// How a number of sectors is written: the number and the word "sectors".
pub open spec fn sectors_text(s: Sectors) -> Seq<char> {
    decimal_text(s.0 as nat) + " sectors"@
}

/// How a number of bytes is written: the number and the word "bytes".
pub open spec fn bytes_text(b: Bytes) -> Seq<char> {
    decimal_text(b.0 as nat) + " bytes"@
}

impl Sectors {
    /// The text of a number of sectors.
    pub fn text(&self) -> (r: String)
        ensures
            r@ == sectors_text(*self),
    {
        let mut s = decimal_string(self.0 as u128);
        s.append(" sectors");
        s
    }
}

impl Bytes {
    /// The text of a number of bytes.
    pub fn text(&self) -> (r: String)
        ensures
            r@ == bytes_text(*self),
    {
        let mut s = decimal_string(self.0);
        s.append(" bytes");
        s
    }
}

} // verus!
