//! What one transfer is worth: the length that the server declared, whether
//! the body that arrived is whole, and the digest of a whole body. A body is
//! whole when it has the length declared; where none was declared, when the
//! stream came to its end. No other body is handed on.

use vstd::prelude::*;

use crate::digest::Sha256Hash;
use crate::error::TaError;
use crate::hasher::{fed, sha256, Sha256};
use crate::text::chars_of;

verus! {

/// The value of a decimal digit, or `None` for any other character.
pub open spec fn digit_value(c: char) -> Option<int> {
    if 48 <= c as int <= 57 {
        Some(c as int - 48)
    } else {
        None
    }
}

/// Whether `s` holds decimal digits only.
pub open spec fn all_digits(s: Seq<char>) -> bool {
    forall|i: int| 0 <= i < s.len() ==> digit_value(#[trigger] s[i]) is Some
}

/// The number that the decimal digits of `s` spell; 0 for the empty text.
pub open spec fn decimal(s: Seq<char>) -> nat
    decreases s.len(),
{
    if s.len() == 0 {
        0
    } else {
        match digit_value(s.last()) {
            Some(d) => decimal(s.drop_last()) * 10 + d as nat,
            None => 0,
        }
    }
}

/// `s` without the plus sign that it may start with.
pub open spec fn unsigned_part(s: Seq<char>) -> Seq<char> {
    if s.len() > 0 && s[0] == '+' {
        s.skip(1)
    } else {
        s
    }
}

/// The length that a `Content-Length` of `s` declares: `s` is an optional
/// plus sign and then one or more decimal digits that spell a number within
/// `usize`. Any other text declares nothing.
pub open spec fn length_of_text(s: Seq<char>) -> Option<usize> {
    let digits = unsigned_part(s);
    if digits.len() > 0 && all_digits(digits) && decimal(digits) <= usize::MAX {
        Some(decimal(digits) as usize)
    } else {
        None
    }
}

/// The length that a response declares: none without the header.
pub open spec fn declared_length_spec(header: Option<Seq<char>>) -> Option<usize> {
    match header {
        Some(text) => length_of_text(text),
        None => None,
    }
}

/// The digits read so far never spell more than all the digits do.
pub proof fn lemma_decimal_prefix(s: Seq<char>, k: int)
    requires
        all_digits(s),
        0 <= k <= s.len(),
    ensures
        decimal(s.take(k)) <= decimal(s),
    decreases s.len() - k,
{
    if k < s.len() {
        lemma_decimal_prefix(s, k + 1);
        let longer = s.take(k + 1);
        assert(longer.drop_last() =~= s.take(k));
        assert(longer.last() == s[k]);
    } else {
        assert(s.take(k) =~= s);
    }
}

/// Computes [`digit_value`].
pub fn digit_of(c: char) -> (digit: Option<usize>)
    ensures
        match digit {
            Some(d) => digit_value(c) == Some(d as int),
            None => digit_value(c) is None,
        },
{
    let code: u32 = c as u32;
    if 48 <= code && code <= 57 {
        Some((code - 48) as usize)
    } else {
        None
    }
}

/// Reads the `Content-Length` of a response. A missing header and a value
/// that is no length both leave the length unknown.
#[verifier::loop_isolation(false)]
pub fn declared_length(header: Option<&str>) -> (len: Option<usize>)
    ensures
        len == declared_length_spec(
            match header {
                Some(text) => Some(text@),
                None => None,
            },
        ),
{
    let text = match header {
        Some(text) => text,
        None => {
            return None;
        },
    };
    let chars = chars_of(text);
    let n: usize = chars.len();
    let start: usize = if n > 0 && chars[0] == '+' {
        1
    } else {
        0
    };
    let ghost digits = unsigned_part(text@);
    assert(digits =~= chars@.skip(start as int));
    if start == n {
        return None;
    }
    let mut value: usize = 0;
    let mut i: usize = start;
    assert(digits.take(0) =~= Seq::<char>::empty());
    while i < n
        invariant
            start <= i <= n == chars@.len(),
            digits == chars@.skip(start as int),
            all_digits(digits.take(i - start)),
            value == decimal(digits.take(i - start)),
        decreases n - i,
    {
        let ghost seen = digits.take(i - start);
        let ghost longer = digits.take(i - start + 1);
        proof {
            assert(longer.drop_last() =~= seen);
            assert(longer.last() == chars@[i as int]);
        }
        let digit: usize = match digit_of(chars[i]) {
            Some(digit) => digit,
            None => {
                assert(digit_value(digits[i - start]) is None);
                return None;
            },
        };
        assert forall|j: int| 0 <= j < longer.len() implies digit_value(#[trigger] longer[j])
            is Some by {
            if j < seen.len() {
                assert(longer[j] == seen[j]);
            } else {
                assert(longer[j] == chars@[i as int]);
            }
        }
        let next = match value.checked_mul(10) {
            Some(tens) => tens.checked_add(digit),
            None => None,
        };
        match next {
            Some(next) => {
                value = next;
            },
            None => {
                proof {
                    assert(decimal(longer) > usize::MAX);
                    if all_digits(digits) {
                        lemma_decimal_prefix(digits, i - start + 1);
                    }
                }
                return None;
            },
        }
        i += 1;
    }
    assert(digits.take(n - start) =~= digits);
    Some(value)
}

/// The result of a download: the digest of the bytes that were received.
pub enum DownloadOutcome {
    /// The bytes that came have this digest.
    WithHash(Sha256Hash),
}

/// What the transport gave for one GET.
pub enum Transfer {
    /// The request failed; no body came.
    Refused,
    /// Reading the body failed.
    Broken(std::io::Error),
    /// A response came and its body was read as far as it went.
    Body {
        /// The value of the `Content-Length` header, where there is one.
        content_length: Option<String>,
        /// Whether the stream came to its end, rather than breaking off
        /// before the transport had all of the body.
        complete: bool,
        /// The bytes that were read.
        bytes: Vec<u8>,
    },
}

/// A body that was accepted: the bytes to write, and their digest.
pub struct Download {
    /// The bytes of the file.
    pub bytes: Vec<u8>,
    /// The digest of those bytes.
    pub outcome: DownloadOutcome,
}

/// Whether a body of `received` bytes is whole. Where a length was declared,
/// the body is whole exactly when it has that length. Where none was, the
/// end of the stream is all there is to go by: the body is whole exactly when
/// the stream came to its end.
pub open spec fn body_is_whole(declared: Option<usize>, complete: bool, received: nat) -> bool {
    match declared {
        Some(length) => received == length,
        None => complete,
    }
}

/// Whether a transfer is accepted: a response came, and its body is whole
/// against the length that its header declares.
pub open spec fn transfer_accepted(transfer: Transfer) -> bool {
    match transfer {
        Transfer::Body { content_length, complete, bytes } => body_is_whole(
            declared_length_spec(
                match content_length {
                    Some(text) => Some(text@),
                    None => None,
                },
            ),
            complete,
            bytes@.len(),
        ),
        _ => false,
    }
}

/// A body of another length than the one declared is not whole, however the
/// stream ended: neither a shorter one nor a longer one.
pub proof fn lemma_short_body_refused(declared: usize, complete: bool, received: nat)
    requires
        received != declared,
    ensures
        !body_is_whole(Some(declared), complete, received),
{
}

/// A transfer whose header declares a length and whose body has another
/// number of bytes is not accepted.
pub proof fn lemma_truncated_transfer_refused(transfer: Transfer)
    requires
        transfer matches Transfer::Body { content_length: Some(text), bytes, .. }
            && length_of_text(text@) matches Some(length) && bytes@.len() != length,
    ensures
        !transfer_accepted(transfer),
{
}

/// The SHA-256 digest of `bytes`.
pub fn hash_of(bytes: &[u8]) -> (hash: Sha256Hash)
    ensures
        hash@ == sha256(bytes@),
{
    let mut hasher = Sha256::new();
    hasher.update(bytes);
    assert(fed(hasher) =~= bytes@);
    Sha256Hash::from_digest(hasher)
}

/// Judges what one GET gave: a failed request and a body that is not whole
/// are a failed download, a failed read is an I/O error, and a whole body is
/// handed on with its digest. The bytes of a body that is not whole are
/// handed to nobody.
pub fn download_test_file(transfer: Transfer) -> (fetched: Result<Download, TaError>)
    ensures
        match transfer {
            Transfer::Refused => fetched matches Err(e) && e is DownloadFailed,
            Transfer::Broken(err) => fetched matches Err(e) && e == TaError::Io(err),
            Transfer::Body { content_length, complete, bytes } => if transfer_accepted(transfer) {
                &&& fetched matches Ok(download)
                &&& download.bytes == bytes
                &&& download.outcome matches DownloadOutcome::WithHash(hash)
                &&& hash@ == sha256(bytes@)
            } else {
                fetched matches Err(e) && e is DownloadFailed
            },
        },
{
    match transfer {
        Transfer::Refused => Err(TaError::DownloadFailed),
        Transfer::Broken(err) => Err(TaError::Io(err)),
        Transfer::Body { content_length, complete, bytes } => {
            let declared = match &content_length {
                Some(text) => declared_length(Some(text.as_str())),
                None => declared_length(None),
            };
            let whole = match declared {
                Some(length) => bytes.len() == length,
                None => complete,
            };
            if !whole {
                return Err(TaError::DownloadFailed);
            }
            let hash = hash_of(bytes.as_slice());
            Ok(Download { bytes, outcome: DownloadOutcome::WithHash(hash) })
        },
    }
}

} // verus!
