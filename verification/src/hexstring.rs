//! Bytes rendered as lowercase hexadecimal text.

use vstd::prelude::*;

verus! {

/// The lowercase hexadecimal digit for `d < 16`.
pub open spec fn hex_digit(d: nat) -> char {
    if d == 0 {
        '0'
    } else if d == 1 {
        '1'
    } else if d == 2 {
        '2'
    } else if d == 3 {
        '3'
    } else if d == 4 {
        '4'
    } else if d == 5 {
        '5'
    } else if d == 6 {
        '6'
    } else if d == 7 {
        '7'
    } else if d == 8 {
        '8'
    } else if d == 9 {
        '9'
    } else if d == 10 {
        'a'
    } else if d == 11 {
        'b'
    } else if d == 12 {
        'c'
    } else if d == 13 {
        'd'
    } else if d == 14 {
        'e'
    } else {
        'f'
    }
}

/// Two hexadecimal digits for each byte, the high half first.
pub open spec fn hex_chars(bytes: Seq<u8>) -> Seq<char>
    decreases bytes.len(),
{
    if bytes.len() == 0 {
        Seq::empty()
    } else {
        hex_chars(bytes.drop_last()).push(hex_digit((bytes.last() / 16) as nat)).push(
            hex_digit((bytes.last() % 16) as nat),
        )
    }
}

fn hex_digit_char(d: u8) -> (c: char)
    requires
        d < 16,
    ensures
        c == hex_digit(d as nat),
{
    if d == 0 {
        '0'
    } else if d == 1 {
        '1'
    } else if d == 2 {
        '2'
    } else if d == 3 {
        '3'
    } else if d == 4 {
        '4'
    } else if d == 5 {
        '5'
    } else if d == 6 {
        '6'
    } else if d == 7 {
        '7'
    } else if d == 8 {
        '8'
    } else if d == 9 {
        '9'
    } else if d == 10 {
        'a'
    } else if d == 11 {
        'b'
    } else if d == 12 {
        'c'
    } else if d == 13 {
        'd'
    } else if d == 14 {
        'e'
    } else {
        'f'
    }
}

/// Bytes that print as hexadecimal text.
#[derive(Debug, Clone)]
pub struct HexString(pub Vec<u8>);

impl View for HexString {
    type V = Seq<u8>;

    open spec fn view(&self) -> Seq<u8> {
        self.0@
    }
}

impl HexString {
    /// The bytes as lowercase hexadecimal text.
    pub fn to_string(&self) -> (r: String)
        ensures
            r@ == hex_chars(self@),
    {
        let mut out = String::new();
        let mut i: usize = 0;
        while i < self.0.len()
            invariant
                i <= self.0.len(),
                out@ == hex_chars(self.0@.take(i as int)),
            decreases self.0.len() - i,
        {
            let b = self.0[i];
            out.push(hex_digit_char(b / 16));
            out.push(hex_digit_char(b % 16));
            i += 1;
            assert(self.0@.take(i as int).drop_last() == self.0@.take(i as int - 1));
        }
        assert(self.0@.take(i as int) == self.0@);
        out
    }
}

/// Wraps `bytes` for printing as hexadecimal text.
pub fn hex(bytes: Vec<u8>) -> (r: HexString)
    ensures
        r@ == bytes@,
{
    HexString(bytes)
}

} // verus!
