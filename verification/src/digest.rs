//! Checking a downloaded file against a release's digest, written
//! `algorithm:hex` (`sha256:ba78...`): the digest is computed with `ring`.
use ring::digest;
use vstd::prelude::*;

verus! {

/// A digest algorithm that release digests name.
#[derive(Clone, Copy, Debug, PartialEq, Eq, Structural)]
pub enum DigestAlgorithm {
    Sha256,
    Sha384,
    Sha512,
}

/// Why a release digest cannot be checked.
#[derive(Clone, Copy, Debug, PartialEq, Eq, Structural)]
pub enum DigestError {
    /// The digest has no `:` between the algorithm and the value.
    Malformed,
    /// The algorithm is none of SHA-256, SHA-384 and SHA-512.
    UnsupportedAlgorithm,
}

/// The number of bytes of a digest of `a`.
pub open spec fn digest_len(a: DigestAlgorithm) -> nat {
    match a {
        DigestAlgorithm::Sha256 => 32,
        DigestAlgorithm::Sha384 => 48,
        DigestAlgorithm::Sha512 => 64,
    }
}

/// The bytes of `sha256`, `sha384` and `sha512`.
pub open spec fn sha_name(bits: Seq<u8>) -> Seq<u8> {
    seq![0x73u8, 0x68, 0x61] + bits
}

/// The algorithm that `name` names, if any.
pub open spec fn algo_of(name: Seq<u8>) -> Option<DigestAlgorithm> {
    if name == sha_name(seq![0x32u8, 0x35, 0x36]) {
        Some(DigestAlgorithm::Sha256)
    } else if name == sha_name(seq![0x33u8, 0x38, 0x34]) {
        Some(DigestAlgorithm::Sha384)
    } else if name == sha_name(seq![0x35u8, 0x31, 0x32]) {
        Some(DigestAlgorithm::Sha512)
    } else {
        None
    }
}

/// The algorithm that `name` names, if any.
pub fn algo_for(name: &[u8]) -> (r: Option<DigestAlgorithm>)
    ensures
        r == algo_of(name@),
{
    let a = [0x73u8, 0x68, 0x61, 0x32, 0x35, 0x36];
    let b = [0x73u8, 0x68, 0x61, 0x33, 0x38, 0x34];
    let c = [0x73u8, 0x68, 0x61, 0x35, 0x31, 0x32];
    assert(a@ =~= sha_name(seq![0x32u8, 0x35, 0x36]));
    assert(b@ =~= sha_name(seq![0x33u8, 0x38, 0x34]));
    assert(c@ =~= sha_name(seq![0x35u8, 0x31, 0x32]));
    if crate::toolchain::bytes_eq(name, &a) {
        Some(DigestAlgorithm::Sha256)
    } else if crate::toolchain::bytes_eq(name, &b) {
        Some(DigestAlgorithm::Sha384)
    } else if crate::toolchain::bytes_eq(name, &c) {
        Some(DigestAlgorithm::Sha512)
    } else {
        None
    }
}

/// What `ring::digest::digest` computes: the digest of `data` with `a`.
pub uninterp spec fn ring_digest(a: DigestAlgorithm, data: Seq<u8>) -> Seq<u8>;

/// Wraps `ring::digest::digest`, which hashes `data` with the algorithm
/// asked for and panics only when the length of `data` in bits does not fit
/// in 64 bits: the result is the digest, as many bytes as the algorithm's
/// output length. What the bytes are is not stated beyond the name.
#[verifier::external_body]
fn compute_digest(a: DigestAlgorithm, data: &[u8]) -> (r: Vec<u8>)
    requires
        data@.len() * 8 <= u64::MAX,
    ensures
        r@ == ring_digest(a, data@),
        r@.len() == digest_len(a),
{
    let algorithm = match a {
        DigestAlgorithm::Sha256 => &digest::SHA256,
        DigestAlgorithm::Sha384 => &digest::SHA384,
        DigestAlgorithm::Sha512 => &digest::SHA512,
    };
    digest::digest(algorithm, data).as_ref().to_vec()
}

/// The lowercase hexadecimal digit of `d`, below 16.
pub open spec fn hex_digit(d: int) -> u8 {
    if d < 10 { (0x30 + d) as u8 } else { (0x61 + d - 10) as u8 }
}

/// The lowercase hexadecimal text of `b`, two digits a byte.
pub open spec fn hex_spec(b: Seq<u8>) -> Seq<u8>
    decreases b.len(),
{
    if b.len() == 0 {
        Seq::empty()
    } else {
        hex_spec(b.drop_last()) + seq![hex_digit(b.last() as int / 16), hex_digit(b.last() as int % 16)]
    }
}

fn hex_char(d: u8) -> (r: u8)
    requires
        d < 16,
    ensures
        r == hex_digit(d as int),
{
    if d < 10 {
        0x30 + d
    } else {
        0x61 + d - 10
    }
}

/// The lowercase hexadecimal text of `b`.
pub fn hex_lower(b: &[u8]) -> (r: Vec<u8>)
    ensures
        r@ == hex_spec(b@),
{
    let mut out: Vec<u8> = Vec::new();
    let n = b.len();
    let mut i: usize = 0;
    while i < n
        invariant
            n == b@.len(),
            0 <= i <= n,
            out@ == hex_spec(b@.subrange(0, i as int)),
        decreases n - i,
    {
        let ghost before = out@;
        out.push(hex_char(b[i] / 16));
        out.push(hex_char(b[i] % 16));
        proof {
            let s = b@.subrange(0, i as int + 1);
            assert(s.drop_last() =~= b@.subrange(0, i as int));
            assert(out@ =~= hex_spec(s));
        }
        i = i + 1;
    }
    assert(b@.subrange(0, n as int) =~= b@);
    out
}

/// The byte `c` with an ASCII capital made small.
pub open spec fn ascii_lower(c: u8) -> u8 {
    if 0x41 <= c <= 0x5A { (c + 0x20) as u8 } else { c }
}

/// Whether `a` and `b` are equal but for the case of ASCII letters.
pub open spec fn eq_ignore_case_spec(a: Seq<u8>, b: Seq<u8>) -> bool {
    a.len() == b.len() && forall|i: int| 0 <= i < a.len() ==> ascii_lower(#[trigger] a[i]) == ascii_lower(b[i])
}

fn lower(c: u8) -> (r: u8)
    ensures
        r == ascii_lower(c),
{
    if 0x41 <= c && c <= 0x5A {
        c + 0x20
    } else {
        c
    }
}

/// Whether `a` and `b` are equal but for the case of ASCII letters.
pub fn eq_ignore_ascii_case(a: &[u8], b: &[u8]) -> (r: bool)
    ensures
        r == eq_ignore_case_spec(a@, b@),
{
    if a.len() != b.len() {
        return false;
    }
    let n = a.len();
    let mut i: usize = 0;
    while i < n
        invariant
            n == a@.len(),
            n == b@.len(),
            0 <= i <= n,
            forall|j: int| 0 <= j < i ==> ascii_lower(#[trigger] a@[j]) == ascii_lower(b@[j]),
        decreases n - i,
    {
        if lower(a[i]) != lower(b[i]) {
            return false;
        }
        i = i + 1;
    }
    true
}

/// The parts of the digest text `d`: the algorithm before the first `:`,
/// and the hexadecimal value after it.
pub open spec fn parse_digest_spec(d: Seq<u8>) -> Result<(DigestAlgorithm, Seq<u8>), DigestError> {
    match crate::toolchain::split_once_at(d, 0x3A) {
        None => Err(DigestError::Malformed),
        Some((name, value)) => match algo_of(name) {
            None => Err(DigestError::UnsupportedAlgorithm),
            Some(a) => Ok((a, value)),
        },
    }
}

/// Splits the digest text `digest` into its algorithm and its value.
pub fn parse_digest(digest: &[u8]) -> (r: Result<(DigestAlgorithm, Vec<u8>), DigestError>)
    ensures
        match (r, parse_digest_spec(digest@)) {
            (Ok((a, v)), Ok((a2, v2))) => a == a2 && v@ == v2,
            (Err(e), Err(e2)) => e == e2,
            _ => false,
        },
{
    match crate::toolchain::split_once_byte(digest, 0x3A) {
        None => Err(DigestError::Malformed),
        Some((name, value)) => match algo_for(name.as_slice()) {
            None => Err(DigestError::UnsupportedAlgorithm),
            Some(a) => Ok((a, value)),
        },
    }
}

/// Whether the digest `actual` is the one whose hexadecimal text is
/// `expected_hex`, in either case.
pub fn digest_matches(actual: &[u8], expected_hex: &[u8]) -> (r: bool)
    ensures
        r == eq_ignore_case_spec(hex_spec(actual@), expected_hex@),
{
    let hex = hex_lower(actual);
    eq_ignore_ascii_case(hex.as_slice(), expected_hex)
}

/// Checks the file contents `contents` against the release digest `digest`:
/// an error when the digest cannot be read, else whether the digest of the
/// contents with the algorithm it names has the hexadecimal text it gives.
pub fn verify_digest(contents: &[u8], digest: &[u8]) -> (r: Result<bool, DigestError>)
    requires
        contents@.len() * 8 <= u64::MAX,
    ensures
        match parse_digest_spec(digest@) {
            Err(e) => r == Err::<bool, DigestError>(e),
            Ok((a, hex)) => r == Ok::<bool, DigestError>(
                eq_ignore_case_spec(hex_spec(ring_digest(a, contents@)), hex),
            ),
        },
{
    let (a, hex) = match parse_digest(digest) {
        Ok(p) => p,
        Err(e) => return Err(e),
    };
    let actual = compute_digest(a, contents);
    Ok(digest_matches(actual.as_slice(), hex.as_slice()))
}

} // verus!
