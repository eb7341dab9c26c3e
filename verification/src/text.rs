use vstd::arithmetic::div_mod::lemma_breakdown;
use vstd::prelude::*;

verus! {

/// Relies on std's String::push: appends exactly the one character.
#[verifier::external_body]
pub fn push_char(s: &mut String, c: char)
    ensures
        final(s)@ == old(s)@.push(c),
{
    s.push(c);
}

/// Character-by-character string comparison.
pub fn str_eq(a: &str, b: &str) -> (r: bool)
    ensures
        r == (a@ == b@),
{
    let na = a.unicode_len();
    let nb = b.unicode_len();
    if na != nb {
        proof {
            assert(a@.len() != b@.len());
        }
        return false;
    }
    let mut i: usize = 0;
    while i < na
        invariant
            i <= na,
            na == a@.len(),
            nb == b@.len(),
            na == nb,
            forall|j: int| 0 <= j < i ==> a@[j] == b@[j],
        decreases na - i,
    {
        if a.get_char(i) != b.get_char(i) {
            proof {
                assert(a@ != b@);
            }
            return false;
        }
        i += 1;
    }
    proof {
        assert(a@ =~= b@);
    }
    true
}

/// Position of the first occurrence of `c` in `s` at or after `from`.
pub fn find_char(s: &str, from: usize, c: char) -> (r: Option<usize>)
    requires
        from <= s@.len(),
    ensures
        match r {
            Some(i) => {
                &&& from <= i < s@.len()
                &&& s@[i as int] == c
                &&& forall|j: int| from <= j < i ==> s@[j] != c
            },
            None => forall|j: int| from <= j < s@.len() ==> s@[j] != c,
        },
{
    let n = s.unicode_len();
    let mut i = from;
    while i < n
        invariant
            from <= i <= n,
            n == s@.len(),
            forall|j: int| from <= j < i ==> s@[j] != c,
        decreases n - i,
    {
        if s.get_char(i) == c {
            return Some(i);
        }
        i += 1;
    }
    None
}

/// 16 to the power `k`.
pub open spec fn pow16(k: nat) -> nat
    decreases k,
{
    if k == 0 {
        1
    } else {
        16 * pow16((k - 1) as nat)
    }
}

pub proof fn lemma_pow16_pos(k: nat)
    ensures
        pow16(k) >= 1,
    decreases k,
{
    if k > 0 {
        lemma_pow16_pos((k - 1) as nat);
    }
}

/// The hexadecimal digit character for a value below 16 (lower case).
pub open spec fn hex_digit(v: nat) -> char {
    if v == 0 {
        '0'
    } else if v == 1 {
        '1'
    } else if v == 2 {
        '2'
    } else if v == 3 {
        '3'
    } else if v == 4 {
        '4'
    } else if v == 5 {
        '5'
    } else if v == 6 {
        '6'
    } else if v == 7 {
        '7'
    } else if v == 8 {
        '8'
    } else if v == 9 {
        '9'
    } else if v == 10 {
        'a'
    } else if v == 11 {
        'b'
    } else if v == 12 {
        'c'
    } else if v == 13 {
        'd'
    } else if v == 14 {
        'e'
    } else {
        'f'
    }
}

/// The value of a hexadecimal digit character; 16 for any other character.
pub open spec fn hex_val(c: char) -> nat {
    if c == '0' {
        0
    } else if c == '1' {
        1
    } else if c == '2' {
        2
    } else if c == '3' {
        3
    } else if c == '4' {
        4
    } else if c == '5' {
        5
    } else if c == '6' {
        6
    } else if c == '7' {
        7
    } else if c == '8' {
        8
    } else if c == '9' {
        9
    } else if c == 'a' {
        10
    } else if c == 'b' {
        11
    } else if c == 'c' {
        12
    } else if c == 'd' {
        13
    } else if c == 'e' {
        14
    } else if c == 'f' {
        15
    } else {
        16
    }
}

pub open spec fn is_hex(c: char) -> bool {
    hex_val(c) < 16
}

pub proof fn lemma_hex_digit_val(v: nat)
    requires
        v < 16,
    ensures
        hex_val(hex_digit(v)) == v,
{
}

/// Fixed-width big-endian hexadecimal rendering of `n % pow16(k)`,
/// exactly `k` characters.
pub open spec fn enc_hex(n: nat, k: nat) -> Seq<char>
    decreases k,
{
    if k == 0 {
        Seq::empty()
    } else {
        seq![hex_digit((n / pow16((k - 1) as nat)) % 16)] + enc_hex(n, (k - 1) as nat)
    }
}

/// Reads exactly `k` hexadecimal characters off the front of `s`, folding
/// them into `acc`; `None` if `s` is too short or a character is not a
/// hexadecimal digit.
pub open spec fn dec_hex(s: Seq<char>, k: nat, acc: nat) -> Option<(nat, Seq<char>)>
    decreases k,
{
    if k == 0 {
        Some((acc, s))
    } else if s.len() > 0 && is_hex(s[0]) {
        dec_hex(s.drop_first(), (k - 1) as nat, acc * 16 + hex_val(s[0]))
    } else {
        None
    }
}

/// Any value read by `dec_hex` stays below `(acc + 1) * pow16(k)`.
pub proof fn lemma_dec_hex_bound(s: Seq<char>, k: nat, acc: nat)
    requires
        dec_hex(s, k, acc) is Some,
    ensures
        dec_hex(s, k, acc).unwrap().0 < (acc + 1) * pow16(k),
        acc * pow16(k) <= dec_hex(s, k, acc).unwrap().0,
    decreases k,
{
    lemma_pow16_pos(k);
    if k == 0 {
    } else {
        let acc2 = acc * 16 + hex_val(s[0]);
        lemma_dec_hex_bound(s.drop_first(), (k - 1) as nat, acc2);
        assert((acc2 + 1) * pow16((k - 1) as nat) <= (acc * 16 + 16) * pow16((k - 1) as nat))
            by (nonlinear_arith)
            requires
                acc2 + 1 <= acc * 16 + 16,
                pow16((k - 1) as nat) >= 1,
        ;
        assert((acc * 16 + 16) * pow16((k - 1) as nat) == (acc + 1) * (16 * pow16(
            (k - 1) as nat,
        ))) by (nonlinear_arith);
        assert(acc * pow16(k) == (acc * 16) * pow16((k - 1) as nat)) by (nonlinear_arith)
            requires
                pow16(k) == 16 * pow16((k - 1) as nat),
        ;
        assert((acc * 16) * pow16((k - 1) as nat) <= acc2 * pow16((k - 1) as nat))
            by (nonlinear_arith)
            requires
                acc * 16 <= acc2,
                pow16((k - 1) as nat) >= 1,
        ;
    }
}

/// Decoding inverts encoding: the `k` characters of `enc_hex(n, k)` fold
/// back to `n % pow16(k)` on top of `acc`, leaving `tail` untouched.
pub proof fn lemma_hex_round_trip(n: nat, k: nat, tail: Seq<char>, acc: nat)
    ensures
        dec_hex(enc_hex(n, k) + tail, k, acc) == Some(
            ((acc * pow16(k) + n % pow16(k)) as nat, tail),
        ),
    decreases k,
{
    lemma_pow16_pos(k);
    if k == 0 {
        assert(enc_hex(n, 0) + tail =~= tail);
        assert(n % 1 == 0);
        assert(acc * 1 == acc);
    } else {
        let km1 = (k - 1) as nat;
        let p = pow16(km1);
        let hv = (n / p) % 16;
        lemma_hex_digit_val(hv);
        let s = enc_hex(n, k) + tail;
        assert(s[0] == hex_digit(hv));
        assert(s.drop_first() =~= enc_hex(n, km1) + tail);
        let acc2 = acc * 16 + hv;
        lemma_hex_round_trip(n, km1, tail, acc2);
        assert(dec_hex(s, k, acc) == Some(((acc2 * p + n % p) as nat, tail)));
        lemma_breakdown(n as int, p as int, 16);
        assert(p * 16 == pow16(k)) by (nonlinear_arith)
            requires
                pow16(k) == 16 * p,
        ;
        assert(n % pow16(k) == p * hv + n % p);
        assert(acc2 * p == acc * pow16(k) + hv * p) by (nonlinear_arith)
            requires
                acc2 == acc * 16 + hv,
                pow16(k) == 16 * p,
        ;
    }
}

pub fn hex_digit_exec(v: u8) -> (c: char)
    requires
        v < 16,
    ensures
        c == hex_digit(v as nat),
{
    match v {
        0 => '0',
        1 => '1',
        2 => '2',
        3 => '3',
        4 => '4',
        5 => '5',
        6 => '6',
        7 => '7',
        8 => '8',
        9 => '9',
        10 => 'a',
        11 => 'b',
        12 => 'c',
        13 => 'd',
        14 => 'e',
        _ => 'f',
    }
}

pub fn hex_val_exec(c: char) -> (v: u8)
    ensures
        v as nat == hex_val(c),
{
    match c {
        '0' => 0,
        '1' => 1,
        '2' => 2,
        '3' => 3,
        '4' => 4,
        '5' => 5,
        '6' => 6,
        '7' => 7,
        '8' => 8,
        '9' => 9,
        'a' => 10,
        'b' => 11,
        'c' => 12,
        'd' => 13,
        'e' => 14,
        'f' => 15,
        _ => 16,
    }
}

pub fn pow16_exec(k: usize) -> (r: u64)
    requires
        k <= 15,
    ensures
        r as nat == pow16(k as nat),
{
    let mut r: u64 = 1;
    let mut i: usize = 0;
    while i < k
        invariant
            i <= k <= 15,
            r as nat == pow16(i as nat),
        decreases k - i,
    {
        proof {
            lemma_pow16_mono((i + 1) as nat, 15);
            lemma_pow16_sixteen();
        }
        r = r * 16;
        i += 1;
    }
    r
}

pub proof fn lemma_pow16_sixteen()
    ensures
        pow16(16) == 0x10000000000000000,
        pow16(15) == 0x1000000000000000,
{
    assert(pow16(0) == 1);
    assert(pow16(1) == 16);
    assert(pow16(2) == 0x100);
    assert(pow16(3) == 0x1000);
    assert(pow16(4) == 0x10000);
    assert(pow16(5) == 0x100000);
    assert(pow16(6) == 0x1000000);
    assert(pow16(7) == 0x10000000);
    assert(pow16(8) == 0x100000000);
    assert(pow16(9) == 0x1000000000);
    assert(pow16(10) == 0x10000000000);
    assert(pow16(11) == 0x100000000000);
    assert(pow16(12) == 0x1000000000000);
    assert(pow16(13) == 0x10000000000000);
    assert(pow16(14) == 0x100000000000000);
    assert(pow16(15) == 0x1000000000000000);
    assert(pow16(16) == 0x10000000000000000);
}

pub proof fn lemma_pow16_vals()
    ensures
        pow16(0) == 1,
        pow16(1) == 16,
        pow16(2) == 256,
{
    assert(pow16(0) == 1);
    assert(pow16(1) == 16);
    assert(pow16(2) == 256);
}

pub proof fn lemma_pow16_bounded(k: nat)
    requires
        k <= 16,
    ensures
        pow16(k) <= 0x10000000000000000,
{
    lemma_pow16_mono(k, 16);
    lemma_pow16_sixteen();
}

pub proof fn lemma_pow16_mono(a: nat, b: nat)
    requires
        a <= b,
    ensures
        pow16(a) <= pow16(b),
    decreases b,
{
    if a < b {
        lemma_pow16_mono(a, (b - 1) as nat);
        lemma_pow16_pos((b - 1) as nat);
    }
}

/// Appends the `k`-character fixed-width hexadecimal form of `n` to `out`.
pub fn encode_hex(n: u64, k: usize, out: &mut String)
    requires
        k <= 16,
    ensures
        final(out)@ == old(out)@ + enc_hex(n as nat, k as nat),
    decreases k,
{
    if k == 0 {
        proof {
            assert(old(out)@ + enc_hex(n as nat, 0) =~= old(out)@);
        }
    } else {
        let p = pow16_exec(k - 1);
        proof {
            lemma_pow16_pos((k - 1) as nat);
        }
        let d = ((n / p) % 16) as u8;
        push_char(out, hex_digit_exec(d));
        encode_hex(n, k - 1, out);
        proof {
            assert(out@ =~= old(out)@ + enc_hex(n as nat, k as nat));
        }
    }
}

/// Reads `k` hexadecimal characters from `s` starting at `pos`, as
/// `dec_hex` describes; returns the value and the position after them.
pub fn decode_hex(s: &str, pos: usize, k: usize) -> (r: Option<(u64, usize)>)
    requires
        pos <= s@.len(),
        k <= 16,
    ensures
        match r {
            Some((v, p)) => {
                &&& pos <= p <= s@.len()
                &&& dec_hex(s@.skip(pos as int), k as nat, 0) == Some(
                    (v as nat, s@.skip(p as int)),
                )
            },
            None => dec_hex(s@.skip(pos as int), k as nat, 0) is None,
        },
{
    let len = s.unicode_len();
    let mut acc: u64 = 0;
    let mut i: usize = 0;
    proof {
        lemma_pow16_bounded(k as nat);
        lemma_pow16_pos(k as nat);
    }
    while i < k
        invariant
            i <= k <= 16,
            pos <= s@.len(),
            pos + i <= s@.len(),
            len == s@.len(),
            (acc as nat) * pow16((k - i) as nat) + pow16((k - i) as nat) - 1 < 0x10000000000000000,
            dec_hex(s@.skip(pos as int), k as nat, 0) == dec_hex(
                s@.skip((pos + i) as int),
                (k - i) as nat,
                acc as nat,
            ),
        decreases k - i,
    {
        if pos + i >= len {
            return None;
        }
        let c = s.get_char(pos + i);
        proof {
            assert(s@.skip((pos + i) as int)[0] == s@[pos + i]);
        }
        let v = hex_val_exec(c);
        if v >= 16 {
            return None;
        }
        proof {
            let rem = (k - i) as nat;
            let rem1 = (rem - 1) as nat;
            lemma_pow16_pos(rem1);
            assert((acc as nat * 16 + v as nat) * pow16(rem1) + pow16(rem1) - 1 <= acc as nat
                * pow16(rem) + pow16(rem) - 1) by (nonlinear_arith)
                requires
                    v < 16,
                    pow16(rem) == 16 * pow16(rem1),
                    pow16(rem1) >= 1,
            ;
            assert(acc as nat * 16 + v as nat <= acc as nat * 16 + v as nat + pow16(rem1) - 1 <= (
            acc as nat * 16 + v as nat) * pow16(rem1) + pow16(rem1) - 1) by (nonlinear_arith)
                requires
                    pow16(rem1) >= 1,
            ;
            assert(s@.skip((pos + i) as int).drop_first() =~= s@.skip((pos + i + 1) as int));
        }
        acc = acc * 16 + (v as u64);
        i += 1;
    }
    proof {
        assert(pow16(0) == 1);
    }
    Some((acc, pos + i))
}

} // verus!
