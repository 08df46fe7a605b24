//! Byte ranges with a known start.

use crate::playlist::M3u8ByteRange;
use crate::text::{
    decimal, digit_value, lemma_decimal_digits, lemma_decimal_parses, parse_decimal,
    parse_u64_chars, push_decimal, str_chars,
};
use vstd::prelude::*;

verus! {

/// `length` bytes starting at byte `offset` of a resource.
#[derive(Debug, Copy, Clone, PartialEq, Eq, Structural)]
pub struct ByteRange {
    pub length: u64,
    pub offset: u64,
}

/// Why a text is no byte range.
#[derive(Debug, Copy, Clone, PartialEq, Eq, Structural)]
pub enum ByteRangeError {
    /// The text holds no `@`.
    MissingOffset,
    /// What stands before the first `@` is no number.
    InvalidLength,
    /// What stands after the first `@` is no number.
    InvalidOffset,
}

/// The position of the first `@` in `s`, or the length of `s` if it has none.
pub open spec fn first_at(s: Seq<char>) -> int
    decreases s.len(),
{
    if s.len() == 0 {
        0
    } else if s[0] == '@' {
        0
    } else {
        1 + first_at(s.skip(1))
    }
}

/// `first_at` stays within the text, and nothing before it is an `@`.
pub proof fn lemma_first_at(s: Seq<char>)
    ensures
        0 <= first_at(s) <= s.len(),
        first_at(s) < s.len() ==> s[first_at(s)] == '@',
        forall|i: int| 0 <= i < first_at(s) ==> s[i] != '@',
    decreases s.len(),
{
    if s.len() > 0 && s[0] != '@' {
        lemma_first_at(s.skip(1));
        assert forall|i: int| 0 <= i < first_at(s) implies s[i] != '@' by {
            if i > 0 {
                assert(s.skip(1)[i - 1] == s[i]);
            }
        }
    }
}

/// Any position that holds the first `@` is `first_at`.
pub proof fn lemma_first_at_unique(s: Seq<char>, k: int)
    requires
        0 <= k <= s.len(),
        k < s.len() ==> s[k] == '@',
        forall|i: int| 0 <= i < k ==> s[i] != '@',
    ensures
        first_at(s) == k,
{
    lemma_first_at(s);
    let f = first_at(s);
    if f < k {
        assert(s[f] != '@');
    } else if f > k {
        assert(s[k] != '@');
    }
}

/// What a text denotes as a byte range: `<length>@<offset>`, split at the
/// first `@`, both parts unsigned decimal numbers.
pub open spec fn parse_byte_range(s: Seq<char>) -> Result<ByteRange, ByteRangeError> {
    let at = first_at(s);
    if at >= s.len() {
        Err(ByteRangeError::MissingOffset)
    } else {
        match parse_decimal(s.subrange(0, at)) {
            None => Err(ByteRangeError::InvalidLength),
            Some(length) => match parse_decimal(s.subrange(at + 1, s.len() as int)) {
                None => Err(ByteRangeError::InvalidOffset),
                Some(offset) => Ok(ByteRange { length, offset }),
            },
        }
    }
}

/// Reading the text of a byte range gives the range.
pub proof fn lemma_byte_range_round_trip(range: ByteRange)
    ensures
        parse_byte_range(range.text()) == Ok::<ByteRange, ByteRangeError>(range),
{
    let length = decimal(range.length as nat);
    let offset = decimal(range.offset as nat);
    let text = range.text();
    lemma_decimal_digits(range.length as nat);
    lemma_decimal_digits(range.offset as nat);
    lemma_decimal_parses(range.length);
    lemma_decimal_parses(range.offset);
    let at = length.len() as int;
    assert(text[at] == '@');
    assert forall|i: int| 0 <= i < at implies text[i] != '@' by {
        assert(text[i] == length[i]);
        assert(digit_value(length[i]) is Some);
    }
    lemma_first_at_unique(text, at);
    assert(text.subrange(0, at) =~= length);
    assert(text.subrange(at + 1, text.len() as int) =~= offset);
}

impl ByteRange {
    /// The text of the range: `<length>@<offset>`.
    pub open spec fn text(self) -> Seq<char> {
        decimal(self.length as nat) + seq!['@'] + decimal(self.offset as nat)
    }

    /// The first byte after the range.
    pub open spec fn end(self) -> int {
        self.offset + self.length
    }

    /// The range that a playlist's byte range denotes when the range before
    /// it ended at `default_offset`.
    pub open spec fn resolve(range: M3u8ByteRange, default_offset: u64) -> ByteRange {
        ByteRange {
            length: range.length,
            offset: match range.offset {
                Some(offset) => offset,
                None => default_offset,
            },
        }
    }

    /// Gives a playlist's byte range its start: its own offset, or
    /// `default_offset` where it has none.
    pub fn from_m3u8(range: &M3u8ByteRange, default_offset: u64) -> (r: ByteRange)
        ensures
            r == Self::resolve(*range, default_offset),
    {
        ByteRange {
            length: range.length,
            offset: match range.offset {
                Some(offset) => offset,
                None => default_offset,
            },
        }
    }

    /// The range as a playlist writes it, with its offset spelled out.
    pub fn to_m3u8(self) -> (r: M3u8ByteRange)
        ensures
            r == (M3u8ByteRange { length: self.length, offset: Some(self.offset) }),
    {
        M3u8ByteRange { length: self.length, offset: Some(self.offset) }
    }

    /// Reads `<length>@<offset>`.
    pub fn parse(s: &str) -> (r: Result<ByteRange, ByteRangeError>)
        ensures
            r == parse_byte_range(s@),
    {
        let chars = str_chars(s);
        let mut at: usize = 0;
        while at < chars.len() && chars[at] != '@'
            invariant
                at <= chars.len(),
                forall|i: int| 0 <= i < at ==> chars@[i] != '@',
            decreases chars.len() - at,
        {
            at += 1;
        }
        proof {
            lemma_first_at_unique(chars@, at as int);
        }
        if at >= chars.len() {
            return Err(ByteRangeError::MissingOffset);
        }
        let length = match parse_u64_chars(&chars, 0, at) {
            Some(length) => length,
            None => {
                return Err(ByteRangeError::InvalidLength);
            },
        };
        let offset = match parse_u64_chars(&chars, at + 1, chars.len()) {
            Some(offset) => offset,
            None => {
                return Err(ByteRangeError::InvalidOffset);
            },
        };
        Ok(ByteRange { length, offset })
    }

    /// Writes `<length>@<offset>`.
    pub fn to_string(&self) -> (r: String)
        ensures
            r@ == self.text(),
    {
        let mut out = String::new();
        push_decimal(&mut out, self.length);
        out.push('@');
        push_decimal(&mut out, self.offset);
        assert(out@ == self.text());
        out
    }
}

impl core::str::FromStr for ByteRange {
    type Err = ByteRangeError;

    fn from_str(s: &str) -> (r: Result<Self, Self::Err>)
        ensures
            r == parse_byte_range(s@),
    {
        ByteRange::parse(s)
    }
}

impl From<ByteRange> for M3u8ByteRange {
    fn from(value: ByteRange) -> (r: M3u8ByteRange) {
        value.to_m3u8()
    }
}

impl vstd::std_specs::convert::FromSpecImpl<ByteRange> for M3u8ByteRange {
    open spec fn obeys_from_spec() -> bool {
        true
    }

    open spec fn from_spec(value: ByteRange) -> M3u8ByteRange {
        M3u8ByteRange { length: value.length, offset: Some(value.offset) }
    }
}

} // verus!
