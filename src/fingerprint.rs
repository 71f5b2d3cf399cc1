//! The fingerprint of an archive: a digest of its size, its modification
//! time and the first bytes of its content, written as lowercase hex.

use sha2::Digest;
use vstd::prelude::*;

verus! {

/// How many leading bytes of an archive enter its fingerprint.
pub const PREFIX_LEN: usize = 4096;

/// What SHA-256 gives for the bytes `data`.
pub uninterp spec fn sha256_of(data: Seq<u8>) -> Seq<u8>;

/// Relies on `sha2::Sha256::digest`: the digest depends on the bytes alone
/// and is 32 bytes long.
#[verifier::external_body]
fn sha256(data: &[u8]) -> (r: Vec<u8>)
    ensures
        r@ == sha256_of(data@),
        r@.len() == 32,
{
    sha2::Sha256::digest(data).to_vec()
}

/// Relies on `String::push`: appends one character.
#[verifier::external_body]
fn push_char(s: &mut String, c: char)
    ensures
        final(s)@ == old(s)@.push(c),
{
    s.push(c)
}

/// The `k` low bytes of `n`, least significant first.
pub open spec fn le_bytes(n: nat, k: nat) -> Seq<u8>
    decreases k,
{
    if k == 0 {
        Seq::empty()
    } else {
        seq![(n % 256) as u8] + le_bytes(n / 256, (k - 1) as nat)
    }
}

/// The leading bytes of `head` that enter a fingerprint.
pub open spec fn leading(head: Seq<u8>) -> Seq<u8> {
    head.take(
        if head.len() < PREFIX_LEN {
            head.len() as int
        } else {
            PREFIX_LEN as int
        },
    )
}

/// The bytes that are digested: size and modification time as eight bytes
/// each, then at most [`PREFIX_LEN`] leading bytes of the content.
pub open spec fn fingerprint_message(size: u64, mtime: u64, head: Seq<u8>) -> Seq<u8> {
    le_bytes(size as nat, 8) + le_bytes(mtime as nat, 8) + leading(head)
}

/// 256 to the power `k`.
pub open spec fn byte_bound(k: nat) -> nat
    decreases k,
{
    if k == 0 {
        1
    } else {
        256 * byte_bound((k - 1) as nat)
    }
}

proof fn lemma_le_bytes_len(n: nat, k: nat)
    ensures
        le_bytes(n, k).len() == k,
    decreases k,
{
    if k > 0 {
        lemma_le_bytes_len(n / 256, (k - 1) as nat);
    }
}

proof fn lemma_le_bytes_injective(a: nat, b: nat, k: nat)
    requires
        a < byte_bound(k),
        b < byte_bound(k),
        le_bytes(a, k) == le_bytes(b, k),
    ensures
        a == b,
    decreases k,
{
    if k > 0 {
        let q = byte_bound((k - 1) as nat);
        assert(le_bytes(a, k)[0] == (a % 256) as u8);
        assert(le_bytes(b, k)[0] == (b % 256) as u8);
        assert(le_bytes(a / 256, (k - 1) as nat) =~= le_bytes(a, k).drop_first());
        assert(le_bytes(b / 256, (k - 1) as nat) =~= le_bytes(b, k).drop_first());
        assert(a / 256 < q) by (nonlinear_arith)
            requires
                a < 256 * q,
        ;
        assert(b / 256 < q) by (nonlinear_arith)
            requires
                b < 256 * q,
        ;
        lemma_le_bytes_injective(a / 256, b / 256, (k - 1) as nat);
    }
}

proof fn lemma_u64_byte_bound()
    ensures
        byte_bound(8) == 0x1_0000_0000_0000_0000,
{
    reveal_with_fuel(byte_bound, 9);
}

/// A fingerprint tells its inputs apart as far as the digest does: two
/// archives whose sizes, modification times or leading bytes differ give
/// different bytes to digest.
pub proof fn lemma_fingerprint_message_injective(
    size1: u64,
    mtime1: u64,
    head1: Seq<u8>,
    size2: u64,
    mtime2: u64,
    head2: Seq<u8>,
)
    requires
        fingerprint_message(size1, mtime1, head1) == fingerprint_message(size2, mtime2, head2),
    ensures
        size1 == size2,
        mtime1 == mtime2,
        leading(head1) == leading(head2),
{
    let m1 = fingerprint_message(size1, mtime1, head1);
    let m2 = fingerprint_message(size2, mtime2, head2);
    lemma_le_bytes_len(size1 as nat, 8);
    lemma_le_bytes_len(size2 as nat, 8);
    lemma_le_bytes_len(mtime1 as nat, 8);
    lemma_le_bytes_len(mtime2 as nat, 8);
    lemma_u64_byte_bound();
    assert(le_bytes(size1 as nat, 8) =~= m1.subrange(0, 8));
    assert(le_bytes(size2 as nat, 8) =~= m2.subrange(0, 8));
    assert(le_bytes(mtime1 as nat, 8) =~= m1.subrange(8, 16));
    assert(le_bytes(mtime2 as nat, 8) =~= m2.subrange(8, 16));
    assert(leading(head1) =~= m1.subrange(16, m1.len() as int));
    assert(leading(head2) =~= m2.subrange(16, m2.len() as int));
    lemma_le_bytes_injective(size1 as nat, size2 as nat, 8);
    lemma_le_bytes_injective(mtime1 as nat, mtime2 as nat, 8);
}

/// The lowercase hex digit of `n`.
pub open spec fn hex_digit(n: u8) -> char {
    if n == 0 {
        '0'
    } else if n == 1 {
        '1'
    } else if n == 2 {
        '2'
    } else if n == 3 {
        '3'
    } else if n == 4 {
        '4'
    } else if n == 5 {
        '5'
    } else if n == 6 {
        '6'
    } else if n == 7 {
        '7'
    } else if n == 8 {
        '8'
    } else if n == 9 {
        '9'
    } else if n == 10 {
        'a'
    } else if n == 11 {
        'b'
    } else if n == 12 {
        'c'
    } else if n == 13 {
        'd'
    } else if n == 14 {
        'e'
    } else {
        'f'
    }
}

/// Two lowercase hex digits for each byte, high half first.
pub open spec fn hex_of(bytes: Seq<u8>) -> Seq<char>
    decreases bytes.len(),
{
    if bytes.len() == 0 {
        Seq::empty()
    } else {
        hex_of(bytes.drop_last()) + seq![
            hex_digit(bytes.last() / 16),
            hex_digit(bytes.last() % 16),
        ]
    }
}

/// The fingerprint of an archive of `size` bytes, modified at `mtime`
/// seconds, whose content starts with `head`.
pub open spec fn fingerprint_of(size: u64, mtime: u64, head: Seq<u8>) -> Seq<char> {
    hex_of(sha256_of(fingerprint_message(size, mtime, head)))
}

fn hex_char(n: u8) -> (c: char)
    requires
        n < 16,
    ensures
        c == hex_digit(n),
{
    match n {
        0 => '0',
        1 => '1',
        2 => '2',
        3 => '3',
        4 => '4',
        5 => '5',
        6 => '6',
        7 => '7',
        8 => '8',
        9 => '9',
        10 => 'a',
        11 => 'b',
        12 => 'c',
        13 => 'd',
        14 => 'e',
        _ => 'f',
    }
}

/// `bytes` as lowercase hex.
pub fn to_hex(bytes: &Vec<u8>) -> (r: String)
    ensures
        r@ == hex_of(bytes@),
        r@.len() == 2 * bytes@.len(),
{
    let mut r = String::new();
    let mut i: usize = 0;
    while i < bytes.len()
        invariant
            i <= bytes@.len(),
            r@ == hex_of(bytes@.take(i as int)),
            r@.len() == 2 * i,
        decreases bytes@.len() - i,
    {
        let b = bytes[i];
        push_char(&mut r, hex_char(b / 16));
        push_char(&mut r, hex_char(b % 16));
        proof {
            let t = bytes@.take(i + 1);
            assert(t.drop_last() =~= bytes@.take(i as int));
            assert(t.last() == b);
        }
        i = i + 1;
    }
    proof {
        assert(bytes@.take(i as int) =~= bytes@);
    }
    r
}

/// Appends the `k` low bytes of `n` to `out`, least significant first.
fn push_le_bytes(out: &mut Vec<u8>, n: u64, k: usize)
    ensures
        final(out)@ == old(out)@ + le_bytes(n as nat, k as nat),
{
    let mut x: u64 = n;
    let mut i: usize = 0;
    while i < k
        invariant
            i <= k,
            out@ + le_bytes(x as nat, (k - i) as nat) == old(out)@ + le_bytes(n as nat, k as nat),
        decreases k - i,
    {
        let ghost before = out@;
        proof {
            assert(le_bytes(x as nat, (k - i) as nat) == seq![(x % 256) as u8] + le_bytes(
                (x / 256) as nat,
                (k - i - 1) as nat,
            ));
        }
        out.push((x % 256) as u8);
        proof {
            assert(out@ + le_bytes((x / 256) as nat, (k - i - 1) as nat) =~= before + (seq![
                (x % 256) as u8,
            ] + le_bytes((x / 256) as nat, (k - i - 1) as nat)));
        }
        x = x / 256;
        i = i + 1;
    }
    proof {
        assert(out@ + le_bytes(x as nat, 0) =~= out@);
    }
}

/// The fingerprint of an archive from its size in bytes, its modification
/// time in seconds and its leading bytes `head`, of which the first
/// [`PREFIX_LEN`] are used.
pub fn calculate_file_hash(size: u64, mtime: u64, head: &[u8]) -> (r: String)
    ensures
        r@ == fingerprint_of(size, mtime, head@),
        r@.len() == 64,
{
    let mut message: Vec<u8> = Vec::new();
    push_le_bytes(&mut message, size, 8);
    push_le_bytes(&mut message, mtime, 8);
    let take = if head.len() < PREFIX_LEN {
        head.len()
    } else {
        PREFIX_LEN
    };
    let mut i: usize = 0;
    let ghost start = message@;
    while i < take
        invariant
            i <= take <= head@.len(),
            message@ == start + head@.take(i as int),
        decreases take - i,
    {
        message.push(head[i]);
        proof {
            assert(head@.take(i + 1) =~= head@.take(i as int).push(head@[i as int]));
        }
        i = i + 1;
    }
    proof {
        assert(message@ =~= fingerprint_message(size, mtime, head@));
    }
    let digest = sha256(message.as_slice());
    to_hex(&digest)
}

} // verus!
