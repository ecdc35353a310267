//! The MD5 digest of a string, written as 32 lowercase hexadecimal digits.

use vstd::prelude::*;
use vstd::string::StringExecFns;
use vstd::string::StringSliceAdditionalSpecFns;

verus! {

/// The 16 bytes that MD5 assigns to `bytes`. The digest itself is computed
/// by the `md5` crate and is not defined here.
pub uninterp spec fn md5_digest(bytes: Seq<u8>) -> Seq<u8>;

/// The lowercase hexadecimal digit for `n`, where `n` is below 16.
pub open spec fn hex_digit(n: u8) -> char {
    if n < 10 {
        (48 + n) as char
    } else {
        (87 + n) as char
    }
}

/// Two hexadecimal digits for each byte, the high half first.
pub open spec fn hex_text(bytes: Seq<u8>) -> Seq<char>
    decreases bytes.len(),
{
    if bytes.len() == 0 {
        Seq::empty()
    } else {
        hex_text(bytes.drop_last()) + seq![
            hex_digit(bytes.last() / 16),
            hex_digit(bytes.last() % 16),
        ]
    }
}

/// Each byte adds two digits.
pub proof fn lemma_hex_text_len(bytes: Seq<u8>)
    ensures
        hex_text(bytes).len() == 2 * bytes.len(),
    decreases bytes.len(),
{
    if bytes.len() > 0 {
        lemma_hex_text_len(bytes.drop_last());
    }
}

/// Calls `md5::compute` of the `md5` crate on `bytes` and takes the 16 bytes
/// out of the `Digest` it returns. Trusted: the result is the MD5 digest of
/// the input, a function of the bytes alone.
#[verifier::external_body]
fn compute_digest(bytes: &[u8]) -> (digest: [u8; 16])
    ensures
        digest@ == md5_digest(bytes@),
{
    ::md5::compute(bytes).0
}

fn digit_str(n: u8) -> (s: &'static str)
    requires
        n < 16,
    ensures
        s@ == seq![hex_digit(n)],
{
    proof {
        reveal_strlit("0");
        reveal_strlit("1");
        reveal_strlit("2");
        reveal_strlit("3");
        reveal_strlit("4");
        reveal_strlit("5");
        reveal_strlit("6");
        reveal_strlit("7");
        reveal_strlit("8");
        reveal_strlit("9");
        reveal_strlit("a");
        reveal_strlit("b");
        reveal_strlit("c");
        reveal_strlit("d");
        reveal_strlit("e");
        reveal_strlit("f");
    }
    let s = match n {
        0 => "0",
        1 => "1",
        2 => "2",
        3 => "3",
        4 => "4",
        5 => "5",
        6 => "6",
        7 => "7",
        8 => "8",
        9 => "9",
        10 => "a",
        11 => "b",
        12 => "c",
        13 => "d",
        14 => "e",
        _ => "f",
    };
    assert(s@ =~= seq![hex_digit(n)]);
    s
}

/// Writes a digest as hexadecimal text: two lowercase digits per byte, so a
/// byte below 16 keeps its leading zero.
pub fn hex_string(digest: &[u8; 16]) -> (hex: String)
    ensures
        hex@ == hex_text(digest@),
        hex@.len() == 32,
{
    let mut result = String::new();
    let mut i: usize = 0;
    assert(digest@.take(0) =~= Seq::<u8>::empty());
    while i < 16
        invariant
            i <= 16,
            result@ == hex_text(digest@.take(i as int)),
        decreases 16 - i,
    {
        let byte: u8 = digest[i];
        result.append(digit_str(byte / 16));
        result.append(digit_str(byte % 16));
        proof {
            let now = digest@.take(i + 1);
            assert(now.drop_last() =~= digest@.take(i as int));
            assert(now.last() == byte);
        }
        i += 1;
    }
    proof {
        assert(digest@.take(16) =~= digest@);
        lemma_hex_text_len(digest@);
    }
    result
}

/// The MD5 digest of the bytes of `msg`, as 32 lowercase hexadecimal digits.
pub fn md5(msg: &str) -> (hex: String)
    ensures
        hex@ == hex_text(md5_digest(msg.spec_bytes())),
        hex@.len() == 32,
{
    let digest = compute_digest(msg.as_bytes());
    hex_string(&digest)
}

} // verus!
