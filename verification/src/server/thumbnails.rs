use vstd::prelude::*;
use vstd::string::*;
use crate::text::push_char;

verus! {

/// FNV-1a style 128-bit hash of a byte sequence (offset basis 0xcbf29ce484222325,
/// multiplier 0x100000001b3, wrapping at 2^128).
pub open spec fn path_hash_spec(data: Seq<u8>) -> u128
    decreases data.len(),
{
    if data.len() == 0 {
        0xcbf29ce484222325u128
    } else {
        vstd::wrapping::u128_specs::wrapping_mul(path_hash_spec(data.drop_last()) ^ (data.last() as u128), 0x100000001b3u128)
    }
}

/// Simple fast hashing helper for thumbnail filename generation
pub fn md5_hash(data: &[u8]) -> (hash: u128)
    ensures
        hash == path_hash_spec(data@),
{
    let mut hash: u128 = 0xcbf29ce484222325;
    let mut i: usize = 0;
    while i < data.len()
        invariant
            i <= data.len(),
            hash == path_hash_spec(data@.take(i as int)),
        decreases data.len() - i,
    {
        assert(data@.take(i + 1).drop_last() =~= data@.take(i as int));
        hash = (hash ^ data[i] as u128).wrapping_mul(0x100000001b3);
        i = i + 1;
    }
    assert(data@.take(i as int) =~= data@);
    hash
}

/// Lower-case hexadecimal digits of a number, without leading zeros.
pub open spec fn hex_lower(n: nat) -> Seq<char>
    decreases n,
{
    if n < 16 {
        seq![hex_char(n)]
    } else {
        hex_lower(n / 16).push(hex_char(n % 16))
    }
}

pub open spec fn hex_char(d: nat) -> char {
    if d < 10 {
        (48 + d) as char
    } else {
        (87 + d) as char
    }
}

fn hex_char_exec(d: u8) -> (c: char)
    requires
        d < 16,
    ensures
        c == hex_char(d as nat),
{
    if d < 10 {
        (48 + d) as char
    } else {
        (87 + d) as char
    }
}

/// Cache file name of a video's thumbnail: the lower-case hexadecimal hash of its path
/// followed by `.jpg`.
pub fn thumbnail_file_name(path: &str) -> (name: String)
    ensures
        name@ == hex_lower(path_hash_spec(path.spec_bytes()) as nat) + ".jpg"@,
{
    let hash = md5_hash(path.as_bytes());
    let mut digits: Vec<char> = Vec::new();
    let mut n: u128 = hash;
    digits.insert(0, hex_char_exec((n % 16) as u8));
    n = n / 16;
    while n > 0
        invariant
            n == 0 ==> hex_lower(hash as nat) == digits@,
            n > 0 ==> hex_lower(hash as nat) == hex_lower(n as nat) + digits@,
        decreases n,
    {
        let d = hex_char_exec((n % 16) as u8);
        proof {
            let ghost old_digits = digits@;
            if n >= 16 {
                assert(hex_lower(n as nat) == hex_lower((n / 16) as nat).push(d));
                assert(hex_lower((n / 16) as nat).push(d) + old_digits
                    =~= hex_lower((n / 16) as nat) + old_digits.insert(0, d));
            } else {
                assert(hex_lower(n as nat) == seq![d]);
                assert(seq![d] + old_digits =~= old_digits.insert(0, d));
            }
        }
        digits.insert(0, d);
        n = n / 16;
    }
    let mut name = String::new();
    let mut k: usize = 0;
    while k < digits.len()
        invariant
            k <= digits.len(),
            name@ == digits@.take(k as int),
        decreases digits.len() - k,
    {
        push_char(&mut name, digits[k]);
        assert(digits@.take(k as int).push(digits@[k as int]) =~= digits@.take(k + 1));
        k = k + 1;
    }
    assert(digits@.take(k as int) =~= digits@);
    push_char(&mut name, '.');
    push_char(&mut name, 'j');
    push_char(&mut name, 'p');
    push_char(&mut name, 'g');
    proof {
        reveal_strlit(".jpg");
        assert(name@ =~= digits@ + ".jpg"@);
    }
    name
}

} // verus!
