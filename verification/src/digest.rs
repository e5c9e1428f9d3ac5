//! SHA-256 digests and their hexadecimal text form.

use vstd::prelude::*;
use vstd::std_specs::cmp::PartialEqSpecImpl;

use crate::error::TaError;
use crate::hasher::{fed, sha256, sha2_finalize, Sha256};
use crate::text::chars_of;

verus! {

/// The lowercase hexadecimal digit that stands for `n`, for `0 <= n < 16`.
pub open spec fn hex_digit(n: int) -> char {
    if n < 10 {
        (n + 48) as char
    } else {
        (n + 87) as char
    }
}

/// The value of a hexadecimal digit of either case, or `None` for any other character.
pub open spec fn hex_value(c: char) -> Option<int> {
    let code = c as int;
    if 48 <= code <= 57 {
        Some(code - 48)
    } else if 97 <= code <= 102 {
        Some(code - 87)
    } else if 65 <= code <= 70 {
        Some(code - 55)
    } else {
        None
    }
}

/// Computes [`hex_digit`].
pub(crate) fn digit_to_char(n: u8) -> (c: char)
    requires
        n < 16,
    ensures
        c == hex_digit(n as int),
{
    if n < 10 {
        (n + 48) as char
    } else {
        (n + 87) as char
    }
}

/// Computes [`hex_value`].
pub fn char_to_digit(c: char) -> (v: Option<u8>)
    ensures
        v is Some <==> hex_value(c) is Some,
        v matches Some(d) ==> d < 16 && hex_value(c) == Some(d as int),
{
    let code: u32 = c as u32;
    if 48 <= code && code <= 57 {
        Some((code - 48) as u8)
    } else if 97 <= code && code <= 102 {
        Some((code - 87) as u8)
    } else if 65 <= code && code <= 70 {
        Some((code - 55) as u8)
    } else {
        None
    }
}

/// A SHA-256 digest: 32 bytes, equal when the bytes are equal.
#[derive(Eq, Hash, Debug)]
pub struct Sha256Hash([u8; 32]);

impl View for Sha256Hash {
    type V = Seq<u8>;

    closed spec fn view(&self) -> Seq<u8> {
        self.0@
    }
}

impl Sha256Hash {
    /// Every digest has exactly 32 bytes.
    pub proof fn lemma_len(&self)
        ensures
            self@.len() == 32,
    {
    }
}

impl Clone for Sha256Hash {
    fn clone(&self) -> (copy: Self)
        ensures
            copy == *self,
    {
        Sha256Hash(self.0)
    }
}

impl PartialEq for Sha256Hash {
    fn eq(&self, other: &Self) -> (same: bool) {
        let mut i: usize = 0;
        while i < 32
            invariant
                i <= 32,
                forall|j: int| 0 <= j < i ==> self.0@[j] == other.0@[j],
            decreases 32 - i,
        {
            if self.0[i] != other.0[i] {
                return false;
            }
            i += 1;
        }
        assert(self.0@ =~= other.0@);
        true
    }
}

impl PartialEqSpecImpl for Sha256Hash {
    open spec fn obeys_eq_spec() -> bool {
        true
    }

    open spec fn eq_spec(&self, other: &Self) -> bool {
        self@ == other@
    }
}

/// The hexadecimal form of `bytes`: two lowercase digits for each byte, the
/// high half first.
pub open spec fn to_hex_spec(bytes: Seq<u8>) -> Seq<char> {
    Seq::new(
        2 * bytes.len(),
        |i: int|
            if i % 2 == 0 {
                hex_digit(bytes[i / 2] as int / 16)
            } else {
                hex_digit(bytes[i / 2] as int % 16)
            },
    )
}

/// Whether `s` is the text of a digest: exactly 64 hexadecimal digits of either case.
pub open spec fn is_hex_digest(s: Seq<char>) -> bool {
    &&& s.len() == 64
    &&& forall|i: int| 0 <= i < 64 ==> hex_value(#[trigger] s[i]) is Some
}

/// The byte that the two digits at positions `2 * k` and `2 * k + 1` of `s` spell.
pub open spec fn hex_byte(s: Seq<char>, k: int) -> u8 {
    (16 * hex_value(s[2 * k]).unwrap() + hex_value(s[2 * k + 1]).unwrap()) as u8
}

/// The 32 bytes that a digest text spells.
pub open spec fn from_hex_spec(s: Seq<char>) -> Seq<u8> {
    Seq::new(32, |k: int| hex_byte(s, k))
}

impl Sha256Hash {
    /// Ends a SHA-256 computation: the digest of all that the hasher was fed.
    #[must_use]
    pub fn from_digest(sha: Sha256) -> (hash: Self)
        ensures
            hash@ == sha256(fed(sha)),
    {
        Sha256Hash(sha2_finalize(sha))
    }

    /// Converts the hexadecimal string to a hash value.
    ///
    /// Succeeds exactly on 64 hexadecimal digits, of either case.
    pub fn from_hex(s: &str) -> (parsed: Result<Self, TaError>)
        ensures
            parsed is Ok <==> is_hex_digest(s@),
            parsed matches Ok(hash) ==> hash@ == from_hex_spec(s@) && to_hex_spec(hash@)
                == lowercase(s@),
            parsed matches Err(e) ==> e is BadHashFormat,
    {
        proof {
            if is_hex_digest(s@) {
                lemma_to_hex_of_from_hex(s@);
            }
        }
        let chars = chars_of(s);
        if chars.len() != 64 {
            return Err(TaError::BadHashFormat);
        }
        assert(chars@.subrange(0, 64) =~= s@);
        match Self::from_hex_chars(&chars, 0) {
            Some(hash) => Ok(hash),
            None => Err(TaError::BadHashFormat),
        }
    }

    /// Reads 64 hexadecimal digits that start at `from`.
    pub(crate) fn from_hex_chars(chars: &Vec<char>, from: usize) -> (parsed: Option<Self>)
        requires
            from + 64 <= chars@.len(),
        ensures
            parsed is Some <==> is_hex_digest(chars@.subrange(from as int, from + 64)),
            parsed matches Some(hash) ==> hash@ == from_hex_spec(
                chars@.subrange(from as int, from + 64),
            ),
    {
        let ghost text = chars@.subrange(from as int, from + 64);
        let len: usize = chars.len();
        let mut bytes = [0u8; 32];
        let mut k: usize = 0;
        while k < 32
            invariant
                k <= 32,
                from + 64 <= len == chars@.len(),
                text == chars@.subrange(from as int, from + 64),
                forall|j: int| 0 <= j < 2 * k ==> hex_value(#[trigger] text[j]) is Some,
                forall|j: int| 0 <= j < k ==> bytes@[j] == hex_byte(text, j),
            decreases 32 - k,
        {
            let high = char_to_digit(chars[from + 2 * k]);
            let low = char_to_digit(chars[from + 2 * k + 1]);
            assert(text[2 * k] == chars@[from + 2 * k]);
            assert(text[2 * k + 1] == chars@[from + 2 * k + 1]);
            match (high, low) {
                (Some(high), Some(low)) => {
                    assert((high << 4) | low == 16 * high + low) by (bit_vector)
                        requires
                            high < 16,
                            low < 16,
                    ;
                    bytes[k] = (high << 4) | low;
                },
                _ => {
                    return None;
                },
            }
            k += 1;
        }
        assert(bytes@ =~= from_hex_spec(text));
        Some(Sha256Hash(bytes))
    }

    /// Converts the hash value to hexadecimal.
    #[must_use]
    pub fn to_hex(&self) -> (hex: String)
        ensures
            hex@ == to_hex_spec(self@),
            is_hex_digest(hex@),
            from_hex_spec(hex@) == self@,
    {
        proof {
            lemma_from_hex_of_to_hex(*self);
        }
        let mut res = String::new();
        let mut i: usize = 0;
        while i < 32
            invariant
                i <= 32,
                res@.len() == 2 * i,
                forall|j: int| 0 <= j < 2 * i ==> res@[j] == to_hex_spec(self@)[j],
            decreases 32 - i,
        {
            let v: u8 = self.0[i];
            assert(v >> 4 == v / 16 && v & 15 == v % 16 && (v >> 4) < 16 && (v & 15) < 16)
                by (bit_vector);
            res.push(digit_to_char(v >> 4));
            res.push(digit_to_char(v & 15));
            i += 1;
        }
        assert(res@ =~= to_hex_spec(self@));
        res
    }
}

/// `c` with an ASCII capital letter replaced by its small letter.
pub open spec fn lower(c: char) -> char {
    if 65 <= c as int <= 90 {
        (c as int + 32) as char
    } else {
        c
    }
}

/// `s` with every ASCII capital letter replaced by its small letter.
pub open spec fn lowercase(s: Seq<char>) -> Seq<char> {
    Seq::new(s.len(), |i: int| lower(s[i]))
}

/// A digit's value is read back from the digit.
pub proof fn lemma_hex_digit_value(n: int)
    requires
        0 <= n < 16,
    ensures
        hex_value(hex_digit(n)) == Some(n),
{
}

/// The digit of a character's value is the character in lower case.
pub proof fn lemma_hex_value_digit(c: char)
    requires
        hex_value(c) is Some,
    ensures
        0 <= hex_value(c).unwrap() < 16,
        hex_digit(hex_value(c).unwrap()) == lower(c),
{
}

/// Parsing the hexadecimal form of 32 bytes succeeds and gives the bytes back.
pub proof fn lemma_hex_round_trip(bytes: Seq<u8>)
    requires
        bytes.len() == 32,
    ensures
        is_hex_digest(to_hex_spec(bytes)),
        from_hex_spec(to_hex_spec(bytes)) == bytes,
{
    let text = to_hex_spec(bytes);
    assert forall|i: int| 0 <= i < 64 implies hex_value(#[trigger] text[i]) is Some by {
        let b = bytes[i / 2] as int;
        lemma_hex_digit_value(b / 16);
        lemma_hex_digit_value(b % 16);
    }
    assert forall|k: int| 0 <= k < 32 implies hex_byte(text, k) == bytes[k] by {
        let b = bytes[k] as int;
        assert((2 * k) / 2 == k && (2 * k + 1) / 2 == k);
        assert((2 * k) % 2 == 0 && (2 * k + 1) % 2 == 1);
        lemma_hex_digit_value(b / 16);
        lemma_hex_digit_value(b % 16);
        assert(16 * (b / 16) + b % 16 == b);
    }
    assert(from_hex_spec(text) =~= bytes);
}

/// Parsing the hexadecimal form of a digest succeeds and gives the digest back.
pub proof fn lemma_from_hex_of_to_hex(digest: Sha256Hash)
    ensures
        is_hex_digest(to_hex_spec(digest@)),
        from_hex_spec(to_hex_spec(digest@)) == digest@,
{
    digest.lemma_len();
    lemma_hex_round_trip(digest@);
}

/// Writing the bytes that a digest text spells gives the text in lower case.
pub proof fn lemma_to_hex_of_from_hex(s: Seq<char>)
    requires
        is_hex_digest(s),
    ensures
        to_hex_spec(from_hex_spec(s)) == lowercase(s),
{
    let bytes = from_hex_spec(s);
    assert forall|i: int| 0 <= i < 64 implies to_hex_spec(bytes)[i] == lower(s[i]) by {
        let k = i / 2;
        let hi = hex_value(s[2 * k]).unwrap();
        let lo = hex_value(s[2 * k + 1]).unwrap();
        lemma_hex_value_digit(s[2 * k]);
        lemma_hex_value_digit(s[2 * k + 1]);
        assert(bytes[k] == hex_byte(s, k));
        assert((16 * hi + lo) / 16 == hi && (16 * hi + lo) % 16 == lo);
        if i % 2 == 0 {
            assert(i == 2 * k);
        } else {
            assert(i == 2 * k + 1);
        }
    }
    assert(to_hex_spec(bytes) =~= lowercase(s));
}

} // verus!
