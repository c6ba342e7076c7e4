//! Checksum verification: an explicit step after a successful (or
//! skipped) download. Integrity failures are `ChecksumMismatch`,
//! deliberately distinct from the transport failures of the download
//! engine.

use vstd::prelude::*;
use sha2::Digest;
use crate::error::Error;
use crate::text::bytes_eq;

verus! {

/// The SHA-256 digest of a byte sequence. Left uninterpreted: what
/// callers rely on is that equal inputs give the equal, 32-byte
/// digest, and the trusted wrapper below ties the name to the real
/// computation.
pub uninterp spec fn sha256_of(data: Seq<u8>) -> Seq<u8>;

/// Relies on `sha2::Sha256` (RustCrypto) for the digest: the result
/// is a function of the input bytes alone and is always 32 bytes.
#[verifier::external_body]
fn sha256_digest(data: &Vec<u8>) -> (r: Vec<u8>)
    ensures
        r@ == sha256_of(data@),
        r@.len() == 32,
{
    sha2::Sha256::digest(data.as_slice()).to_vec()
}

/// Is `c` a hexadecimal digit, and what is its value?
pub open spec fn hex_val(c: char) -> Option<u8> {
    if '0' <= c <= '9' {
        Some((c as u8 - '0' as u8) as u8)
    } else if 'a' <= c <= 'f' {
        Some((c as u8 - 'a' as u8 + 10) as u8)
    } else if 'A' <= c <= 'F' {
        Some((c as u8 - 'A' as u8 + 10) as u8)
    } else {
        None
    }
}

/// Bytes denoted by a hex string: two digits per byte, upper or lower
/// case; `None` on odd length or any non-digit.
pub open spec fn spec_parse_hex(s: Seq<char>) -> Option<Seq<u8>>
    decreases s.len(),
{
    if s.len() == 0 {
        Some(Seq::<u8>::empty())
    } else if s.len() == 1 {
        None
    } else {
        match (hex_val(s[0]), hex_val(s[1])) {
            (Some(hi), Some(lo)) => match spec_parse_hex(s.skip(2)) {
                Some(rest) => Some(seq![(hi * 16 + lo) as u8] + rest),
                None => None,
            },
            _ => None,
        }
    }
}

fn exec_hex_val(c: char) -> (r: Option<u8>)
    ensures
        r == hex_val(c),
{
    match c {
        '0' => Some(0),
        '1' => Some(1),
        '2' => Some(2),
        '3' => Some(3),
        '4' => Some(4),
        '5' => Some(5),
        '6' => Some(6),
        '7' => Some(7),
        '8' => Some(8),
        '9' => Some(9),
        'a' => Some(10),
        'b' => Some(11),
        'c' => Some(12),
        'd' => Some(13),
        'e' => Some(14),
        'f' => Some(15),
        'A' => Some(10),
        'B' => Some(11),
        'C' => Some(12),
        'D' => Some(13),
        'E' => Some(14),
        'F' => Some(15),
        _ => None,
    }
}

/// Result of parsing the suffix, prefixed by what was already decoded.
spec fn opt_prefix(pre: Seq<u8>, o: Option<Seq<u8>>) -> Option<Seq<u8>> {
    match o {
        Some(rest) => Some(pre + rest),
        None => None,
    }
}

/// Decode a hex string into bytes.
pub fn parse_hex(s: &str) -> (r: Option<Vec<u8>>)
    ensures
        match r {
            Some(v) => spec_parse_hex(s@) == Some(v@),
            None => spec_parse_hex(s@) is None,
        },
{
    let n: usize = s.unicode_len();
    let mut out: Vec<u8> = Vec::new();
    let mut i: usize = 0;
    proof {
        assert(s@.skip(0) =~= s@);
        assert(out@ + spec_parse_hex(s@).unwrap_or(Seq::<u8>::empty()) =~= spec_parse_hex(
            s@,
        ).unwrap_or(Seq::<u8>::empty()));
    }
    while i < n
        invariant
            i <= n,
            n == s@.len(),
            spec_parse_hex(s@) == opt_prefix(out@, spec_parse_hex(s@.skip(i as int))),
        decreases n - i,
    {
        if i + 1 == n {
            proof {
                assert(s@.skip(i as int).len() == 1);
            }
            return None;
        }
        let hi = match exec_hex_val(s.get_char(i)) {
            Some(h) => h,
            None => {
                proof {
                    assert(s@.skip(i as int)[0] == s@[i as int]);
                    assert(spec_parse_hex(s@.skip(i as int)) is None);
                }
                return None;
            },
        };
        let lo = match exec_hex_val(s.get_char(i + 1)) {
            Some(l) => l,
            None => {
                proof {
                    assert(s@.skip(i as int)[1] == s@[i + 1]);
                    assert(spec_parse_hex(s@.skip(i as int)) is None);
                }
                return None;
            },
        };
        let b: u8 = hi * 16 + lo;
        out.push(b);
        proof {
            let tail = s@.skip(i as int);
            assert(tail[0] == s@[i as int]);
            assert(tail[1] == s@[i + 1]);
            assert(tail.skip(2) =~= s@.skip(i + 2));
            assert(spec_parse_hex(tail) == opt_prefix(
                seq![b],
                spec_parse_hex(s@.skip(i + 2)),
            ));
            match spec_parse_hex(s@.skip(i + 2)) {
                Some(rest) => {
                    assert(out@ + rest =~= out@.drop_last() + (seq![b] + rest));
                },
                None => {},
            }
        }
        i += 2;
    }
    proof {
        assert(s@.skip(n as int).len() == 0);
        assert(spec_parse_hex(s@.skip(n as int)) == Some(Seq::<u8>::empty()));
        match spec_parse_hex(s@) {
            Some(v) => {
                assert(out@ + Seq::<u8>::empty() =~= out@);
            },
            None => {},
        }
    }
    Some(out)
}

/// The fetched bytes hash to the expected digest.
pub open spec fn checksum_matches(data: Seq<u8>, expected: Seq<char>) -> bool {
    spec_parse_hex(expected) == Some(sha256_of(data))
}

/// Recompute the archive's digest and compare it to the expected hex
/// string; a mismatch (or an expected string that is not valid hex)
/// is a `ChecksumMismatch` for `package`.
pub fn verify_checksum(package: &str, data: &Vec<u8>, expected: &str) -> (r: Result<(), Error>)
    ensures
        r is Ok <==> checksum_matches(data@, expected@),
        r matches Err(e) ==> (e matches Error::ChecksumMismatch { package: pk, expected: ex }
            && pk@ == package@ && ex@ == expected@),
{
    let digest = sha256_digest(data);
    let ok = match parse_hex(expected) {
        Some(v) => bytes_eq(&v, &digest),
        None => false,
    };
    if ok {
        Ok(())
    } else {
        Err(
            Error::ChecksumMismatch {
                package: String::from_str(package),
                expected: String::from_str(expected),
            },
        )
    }
}

} // verus!
