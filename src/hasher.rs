//! Content digests: a fast non-cryptographic hash of a file's bytes, written as
//! sixteen lowercase hexadecimal digits. Throughput is chosen over collision
//! resistance on purpose: two unrelated files may, with vanishing probability,
//! share a digest.
use vstd::prelude::*;
use vstd::string::*;

verus! {

/// The 64-bit SeaHash of a byte sequence.
pub uninterp spec fn seahash_of(bytes: Seq<u8>) -> u64;

/// Relies on seahash::hash: a deterministic function of the bytes alone, with
/// the crate's fixed seed.
#[verifier::external_body]
fn seahash(bytes: &[u8]) -> (r: u64)
    ensures
        r == seahash_of(bytes@),
{
    seahash::hash(bytes)
}

pub open spec fn pow16(n: nat) -> int
    decreases n,
{
    if n == 0 {
        1
    } else {
        16 * pow16((n - 1) as nat)
    }
}

proof fn lemma_pow16_positive(n: nat)
    ensures
        pow16(n) >= 1,
    decreases n,
{
    if n > 0 {
        lemma_pow16_positive((n - 1) as nat);
    }
}

pub open spec fn hex_digit(d: int) -> char {
    "0123456789abcdef"@[d]
}

/// `h` as sixteen hexadecimal digits, most significant first, zero-padded.
pub open spec fn hex16(h: u64) -> Seq<char> {
    Seq::new(16, |k: int| hex_digit((h as int / pow16((15 - k) as nat)) % 16))
}

/// Writes `h` as sixteen lowercase hexadecimal digits.
pub fn hex_u64(h: u64) -> (r: String)
    ensures
        r@ == hex16(h),
{
    let digits: &str = "0123456789abcdef";
    proof {
        reveal_strlit("0123456789abcdef");
    }
    let mut out = String::new();
    let mut div: u64 = 1152921504606846976;
    proof {
        reveal_with_fuel(pow16, 16);
    }
    assert(pow16(15) == 1152921504606846976);
    let mut k: usize = 0;
    while k < 16
        invariant
            k <= 16,
            digits@ == "0123456789abcdef"@,
            digits@.len() == 16,
            div >= 1,
            div as int == pow16((15 - k) as nat) || k == 16,
            out@ == hex16(h).take(k as int),
        decreases 16 - k,
    {
        let d = ((h / div) % 16) as usize;
        out.append(digits.substring_char(d, d + 1));
        assert(out@ =~= hex16(h).take(k + 1));
        if k < 15 {
            assert(pow16((15 - k) as nat) == 16 * pow16((15 - (k + 1)) as nat));
            proof {
                lemma_pow16_positive((15 - (k + 1)) as nat);
            }
            div = div / 16;
        }
        k = k + 1;
    }
    assert(out@ =~= hex16(h));
    out
}

/// The digest of a file's content, given its bytes.
pub fn hash_bytes(bytes: &[u8]) -> (r: String)
    ensures
        r@ == hex16(seahash_of(bytes@)),
{
    hex_u64(seahash(bytes))
}

} // verus!
