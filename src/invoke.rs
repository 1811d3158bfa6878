//! What the coordinator hands to the remote invoker: call data made of a
//! function selector and SCALE-encoded arguments, and the signatures of
//! compensating calls.
use vstd::prelude::*;

verus! {

/// How many leading bytes of the signature's digest form the selector.
pub const SELECTOR_WIDTH: usize = 4;

/// The marker put before the parameter list of a compensating signature.
pub const REVERT_FLAG: &'static str = "_revert";

/// The SCALE compact encoding of a length below `2^32`: one, two or four
/// little-endian bytes holding `n * 4` plus the mode in its two low bits,
/// or the mode byte `3` followed by the four little-endian bytes of `n`.
pub open spec fn compact_len(n: nat) -> Seq<u8> {
    if n < 64 {
        seq![(n * 4) as u8]
    } else if n < 16384 {
        let v = n * 4 + 1;
        seq![(v % 256) as u8, (v / 256) as u8]
    } else if n < 1073741824 {
        let v = n * 4 + 2;
        seq![(v % 256) as u8, ((v / 256) % 256) as u8, ((v / 65536) % 256) as u8, (v / 16777216) as u8]
    } else {
        seq![3u8, (n % 256) as u8, ((n / 256) % 256) as u8, ((n / 65536) % 256) as u8, (n / 16777216) as u8]
    }
}

/// The SCALE encoding of a byte vector: its compact length, then the bytes.
pub open spec fn scale_bytes(b: Seq<u8>) -> Seq<u8> {
    compact_len(b.len()) + b
}

/// Relies on parity_scale_codec's `Encode` for `Vec<u8>`: the compact
/// length followed by the bytes; it panics on more than `u32::MAX` bytes.
#[verifier::external_body]
fn scale_encode(b: &Vec<u8>) -> (r: Vec<u8>)
    requires
        b.len() <= u32::MAX,
    ensures
        r@ == scale_bytes(b@),
{
    parity_scale_codec::Encode::encode(b)
}

/// The selector of a signature whose digest is `digest`.
pub open spec fn selector(digest: Seq<u8>) -> Seq<u8> {
    if digest.len() < SELECTOR_WIDTH {
        digest
    } else {
        digest.take(SELECTOR_WIDTH as int)
    }
}

/// The call data of a remote invocation: the selector taken from the digest
/// of the function signature, then the SCALE encoding of the arguments.
pub fn call_data(digest: &Vec<u8>, args: &Vec<u8>) -> (r: Vec<u8>)
    requires
        args.len() <= u32::MAX,
    ensures
        r@ == selector(digest@) + scale_bytes(args@),
{
    let mut data: Vec<u8> = Vec::new();
    let mut i: usize = 0;
    while i < digest.len() && i < SELECTOR_WIDTH
        invariant
            i <= digest.len(),
            i <= SELECTOR_WIDTH,
            data@ == digest@.take(i as int),
        decreases SELECTOR_WIDTH - i,
    {
        data.push(digest[i]);
        assert(digest@.take(i + 1) =~= digest@.take(i as int).push(digest[i as int]));
        i = i + 1;
    }
    assert(data@ =~= selector(digest@));
    let mut encoded = scale_encode(args);
    data.append(&mut encoded);
    data
}

/// The position of the first `(` in `s`, or its length when there is none.
pub open spec fn paren_index(s: Seq<char>) -> nat
    decreases s.len(),
{
    if s.len() == 0 {
        0
    } else if s[0] == '(' {
        0
    } else {
        1 + paren_index(s.drop_first())
    }
}

proof fn lemma_paren_index(s: Seq<char>, i: int)
    requires
        0 <= i <= s.len(),
        forall|k: int| 0 <= k < i ==> s[k] != '(',
        i == s.len() || s[i] == '(',
    ensures
        paren_index(s) == i,
    decreases i,
{
    if i > 0 {
        lemma_paren_index(s.drop_first(), i - 1);
    }
}

/// The method name of a function signature: what precedes its parameter list.
pub open spec fn method_of(func: Seq<char>) -> Seq<char> {
    func.take(paren_index(func) as int)
}

/// The compensating signature: the marker inserted right before the
/// parameter list (at the end when there is none).
pub open spec fn revert_func(func: Seq<char>) -> Seq<char> {
    func.take(paren_index(func) as int) + REVERT_FLAG@ + func.skip(paren_index(func) as int)
}

/// The position of the first `(` in `s`.
fn find_paren(s: &str) -> (r: usize)
    ensures
        r == paren_index(s@),
        r <= s@.len(),
{
    let n = s.unicode_len();
    let mut i: usize = 0;
    while i < n && s.get_char(i) != '('
        invariant
            i <= n,
            n == s@.len(),
            forall|k: int| 0 <= k < i ==> s@[k] != '(',
        decreases n - i,
    {
        i = i + 1;
    }
    proof {
        lemma_paren_index(s@, i as int);
    }
    i
}

/// The method name of `func`.
pub fn getMethodFromFunc(func: &String) -> (r: String)
    ensures
        r@ == method_of(func@),
{
    let p = find_paren(func.as_str());
    let head = func.as_str().substring_char(0, p);
    let r = String::from_str(head);
    assert(r@ =~= method_of(func@));
    r
}

/// The compensating signature of `func`.
pub fn getRevertFunc(func: &String) -> (r: String)
    ensures
        r@ == revert_func(func@),
{
    let s = func.as_str();
    let p = find_paren(s);
    let n = s.unicode_len();
    let mut r = String::from_str(s.substring_char(0, p));
    r.append(REVERT_FLAG);
    r.append(s.substring_char(p, n));
    assert(r@ =~= revert_func(func@));
    r
}

} // verus!
