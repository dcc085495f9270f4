use vstd::prelude::*;
use vstd::utf8::encode_utf8;

use crate::ids::UserId;

use hmac::{Hmac, Mac};
use sha2::Sha256;

verus! {

// ---------------------------------------------------------------------------
// Hexadecimal encoding
// ---------------------------------------------------------------------------
/// The lowercase hex digit character for `d` (`0 <= d < 16`).
pub open spec fn hex_digit(d: int) -> char {
    if d == 0 {
        '0'
    } else if d == 1 {
        '1'
    } else if d == 2 {
        '2'
    } else if d == 3 {
        '3'
    } else if d == 4 {
        '4'
    } else if d == 5 {
        '5'
    } else if d == 6 {
        '6'
    } else if d == 7 {
        '7'
    } else if d == 8 {
        '8'
    } else if d == 9 {
        '9'
    } else if d == 10 {
        'a'
    } else if d == 11 {
        'b'
    } else if d == 12 {
        'c'
    } else if d == 13 {
        'd'
    } else if d == 14 {
        'e'
    } else {
        'f'
    }
}

/// The value of a lowercase hex digit character, or `-1` if `c` is not one.
pub open spec fn hex_val(c: char) -> int {
    if 48 <= c as u32 <= 57 {
        c as u32 - 48
    } else if 97 <= c as u32 <= 102 {
        c as u32 - 87
    } else {
        -1
    }
}

proof fn lemma_hex_digit_val(d: int)
    requires
        0 <= d < 16,
    ensures
        hex_val(hex_digit(d)) == d,
        hex_digit(d) != '.',
{
}

proof fn lemma_hex_val_digit(c: char)
    requires
        hex_val(c) != -1,
    ensures
        0 <= hex_val(c) < 16,
        hex_digit(hex_val(c)) == c,
{
}

/// The big-endian base-16 digits of `n`, `k` of them.
pub open spec fn nibbles_of(n: int, k: nat) -> Seq<int>
    decreases k,
{
    if k == 0 {
        Seq::empty()
    } else {
        nibbles_of(n / 16, (k - 1) as nat).push(n % 16)
    }
}

/// The number denoted by big-endian base-16 digits.
pub open spec fn value_of(s: Seq<int>) -> int
    decreases s.len(),
{
    if s.len() == 0 {
        0
    } else {
        value_of(s.drop_last()) * 16 + s.last()
    }
}

/// Sixteen to the `k`.
pub open spec fn pow16(k: nat) -> int
    decreases k,
{
    if k == 0 {
        1
    } else {
        16 * pow16((k - 1) as nat)
    }
}

proof fn lemma_pow16_pos(k: nat)
    ensures
        pow16(k) >= 1,
    decreases k,
{
    if k > 0 {
        lemma_pow16_pos((k - 1) as nat);
    }
}

proof fn lemma_pow16_mono(j: nat, k: nat)
    requires
        j <= k,
    ensures
        pow16(j) <= pow16(k),
    decreases k,
{
    if j < k {
        lemma_pow16_mono(j, (k - 1) as nat);
        lemma_pow16_pos((k - 1) as nat);
    }
}

proof fn lemma_pow16_32()
    ensures
        pow16(32) == 0x100000000000000000000000000000000,
{
    reveal_with_fuel(pow16, 33);
}

proof fn lemma_nibbles_range(n: int, k: nat)
    requires
        n >= 0,
    ensures
        nibbles_of(n, k).len() == k,
        forall|i: int| 0 <= i < k ==> 0 <= #[trigger] nibbles_of(n, k)[i] < 16,
    decreases k,
{
    if k > 0 {
        lemma_nibbles_range(n / 16, (k - 1) as nat);
        assert(forall|i: int|
            0 <= i < k - 1 ==> #[trigger] nibbles_of(n, k)[i] == nibbles_of(n / 16, (k - 1) as nat)[i]);
    }
}

proof fn lemma_value_of_bound(s: Seq<int>)
    requires
        forall|i: int| 0 <= i < s.len() ==> 0 <= #[trigger] s[i] < 16,
    ensures
        0 <= value_of(s) < pow16(s.len()),
    decreases s.len(),
{
    if s.len() == 0 {
    } else {
        lemma_value_of_bound(s.drop_last());
        assert(s.last() == s[s.len() - 1]);
    }
}

/// Reading back the `k` base-16 digits of `n` recovers `n`.
proof fn lemma_nibbles_value(n: int, k: nat)
    requires
        0 <= n < pow16(k),
    ensures
        value_of(nibbles_of(n, k)) == n,
    decreases k,
{
    if k == 0 {
    } else {
        assert(n / 16 < pow16((k - 1) as nat)) by (nonlinear_arith)
            requires
                0 <= n < 16 * pow16((k - 1) as nat),
        ;
        lemma_nibbles_value(n / 16, (k - 1) as nat);
        let s = nibbles_of(n, k);
        assert(s.drop_last() =~= nibbles_of(n / 16, (k - 1) as nat));
        assert(s.last() == n % 16);
    }
}

/// A sequence of base-16 digits is the digit expansion of its own value.
proof fn lemma_value_nibbles(s: Seq<int>)
    requires
        forall|i: int| 0 <= i < s.len() ==> 0 <= #[trigger] s[i] < 16,
    ensures
        nibbles_of(value_of(s), s.len()) == s,
    decreases s.len(),
{
    if s.len() == 0 {
        assert(nibbles_of(0, 0) =~= s);
    } else {
        let v = value_of(s);
        let p = s.drop_last();
        let d = s.last();
        assert(s.last() == s[s.len() - 1]);
        lemma_value_of_bound(p);
        assert(v == value_of(p) * 16 + d);
        assert(v / 16 == value_of(p) && v % 16 == d) by (nonlinear_arith)
            requires
                v == value_of(p) * 16 + d,
                0 <= d < 16,
                value_of(p) >= 0,
        ;
        lemma_value_nibbles(p);
        assert(nibbles_of(v, s.len()) =~= nibbles_of(v / 16, (s.len() - 1) as nat).push(v % 16));
        assert(p.push(d) =~= s);
    }
}

/// The hex characters of a digit sequence.
pub open spec fn hex_chars_of(s: Seq<int>) -> Seq<char> {
    s.map_values(|d: int| hex_digit(d))
}

/// The 32-character lowercase hex rendering of a 128-bit number.
pub open spec fn hex_of_u128(n: u128) -> Seq<char> {
    hex_chars_of(nibbles_of(n as int, 32))
}

/// The lowercase hex rendering of a byte string, two characters per byte.
pub open spec fn hex_of_bytes(bs: Seq<u8>) -> Seq<char>
    decreases bs.len(),
{
    if bs.len() == 0 {
        Seq::empty()
    } else {
        hex_of_bytes(bs.drop_last()) + seq![
            hex_digit(bs.last() as int / 16),
            hex_digit(bs.last() as int % 16),
        ]
    }
}

proof fn lemma_hex_of_bytes_props(bs: Seq<u8>)
    ensures
        hex_of_bytes(bs).len() == 2 * bs.len(),
        forall|i: int| 0 <= i < 2 * bs.len() ==> hex_val(#[trigger] hex_of_bytes(bs)[i]) != -1,
    decreases bs.len(),
{
    if bs.len() > 0 {
        lemma_hex_of_bytes_props(bs.drop_last());
        let b = bs.last() as int;
        lemma_hex_digit_val(b / 16);
        lemma_hex_digit_val(b % 16);
    }
}

fn hex_digit_str(d: u128) -> (s: &'static str)
    requires
        d < 16,
    ensures
        s@ =~= seq![hex_digit(d as int)],
{
    proof {
        reveal_strlit("0");
        reveal_strlit("1");
        reveal_strlit("2");
        reveal_strlit("3");
        reveal_strlit("4");
        reveal_strlit("5");
        reveal_strlit("6");
        reveal_strlit("7");
        reveal_strlit("8");
        reveal_strlit("9");
        reveal_strlit("a");
        reveal_strlit("b");
        reveal_strlit("c");
        reveal_strlit("d");
        reveal_strlit("e");
        reveal_strlit("f");
    }
    match d {
        0 => "0",
        1 => "1",
        2 => "2",
        3 => "3",
        4 => "4",
        5 => "5",
        6 => "6",
        7 => "7",
        8 => "8",
        9 => "9",
        10 => "a",
        11 => "b",
        12 => "c",
        13 => "d",
        14 => "e",
        _ => "f",
    }
}

/// Append the `k`-digit big-endian hex rendering of `n` to `s`.
fn push_hex_u128(s: &mut String, n: u128, k: usize)
    requires
        k <= 32,
    ensures
        final (s)@ == old(s)@ + hex_chars_of(nibbles_of(n as int, k as nat)),
    decreases k,
{
    if k == 0 {
        assert(s@ =~= old(s)@ + hex_chars_of(nibbles_of(n as int, 0)));
    } else {
        push_hex_u128(s, n / 16, k - 1);
        let d = n % 16;
        s.append(hex_digit_str(d));
        proof {
            let pre = nibbles_of(n as int / 16, (k - 1) as nat);
            assert(n as int / 16 == (n / 16) as int);
            assert(nibbles_of(n as int, k as nat) =~= pre.push(n as int % 16));
            assert(hex_chars_of(pre.push(n as int % 16)) =~= hex_chars_of(pre).push(
                hex_digit(n as int % 16),
            ));
            assert(s@ =~= old(s)@ + hex_chars_of(nibbles_of(n as int, k as nat)));
        }
    }
}

/// Append the lowercase hex rendering of `bs` to `s`.
fn push_hex_bytes(s: &mut String, bs: &Vec<u8>)
    ensures
        final (s)@ == old(s)@ + hex_of_bytes(bs@),
{
    let n = bs.len();
    let mut i: usize = 0;
    proof {
        assert(s@ =~= old(s)@ + hex_of_bytes(bs@.take(0)));
    }
    while i < n
        invariant
            i <= n,
            n == bs@.len(),
            s@ == old(s)@ + hex_of_bytes(bs@.take(i as int)),
        decreases n - i,
    {
        let b = bs[i];
        let hi = (b / 16) as u128;
        let lo = (b % 16) as u128;
        s.append(hex_digit_str(hi));
        s.append(hex_digit_str(lo));
        proof {
            let t = bs@.take(i + 1);
            assert(t.drop_last() =~= bs@.take(i as int));
            assert(t.last() == bs@[i as int]);
            assert(hex_of_bytes(t) =~= hex_of_bytes(bs@.take(i as int)) + seq![
                hex_digit(b as int / 16),
                hex_digit(b as int % 16),
            ]);
            assert(s@ =~= old(s)@ + hex_of_bytes(t));
        }
        i += 1;
    }
    proof {
        assert(bs@.take(n as int) =~= bs@);
    }
}

fn hex_val_exec(c: char) -> (v: u8)
    ensures
        hex_val(c) == -1 ==> v == 16,
        hex_val(c) != -1 ==> v as int == hex_val(c),
{
    let u = c as u32;
    if 48 <= u && u <= 57 {
        (u - 48) as u8
    } else if 97 <= u && u <= 102 {
        (u - 87) as u8
    } else {
        16
    }
}

// ---------------------------------------------------------------------------
// HMAC
// ---------------------------------------------------------------------------
/// The HMAC-SHA-256 tag of `msg` under `key`: a deterministic function of the
/// two arguments alone, named by the trusted item below.
pub uninterp spec fn hmac_sha256(key: Seq<u8>, msg: Seq<u8>) -> Seq<u8>;

/// Relies on the hmac crate's `Hmac<Sha256>` (`new_from_slice`, which accepts
/// a key of any length, then `update` and `finalize`): a 32-byte tag computed
/// deterministically from key and message.
#[verifier::external_body]
fn compute_hmac(key: &[u8], msg: &[u8]) -> (r: Vec<u8>)
    ensures
        r@ == hmac_sha256(key@, msg@),
        r@.len() == 32,
{
    let mut mac = <Hmac<Sha256> as Mac>::new_from_slice(key).unwrap();
    mac.update(msg);
    mac.finalize().into_bytes().to_vec()
}

// ---------------------------------------------------------------------------
// The token format
// ---------------------------------------------------------------------------
/// The signed session token for `id` under `key`: the identity as 32 hex
/// characters, a dot, then the HMAC-SHA-256 tag of the payload's bytes as 64
/// hex characters.
pub open spec fn spec_issue(key: Seq<u8>, id: u128) -> Seq<char> {
    hex_of_u128(id) + seq!['.'] + hex_of_bytes(hmac_sha256(key, encode_utf8(hex_of_u128(id))))
}

/// A typed token-verification failure; both kinds map to the same
/// caller-visible authentication failure, the distinction is kept for
/// observability.
#[derive(Debug, Clone, Copy, PartialEq, Eq, Structural)]
pub enum TokenError {
    /// The signature does not verify over the carried payload.
    InvalidSignature,
    /// The signature verifies but the payload does not decode to an identity.
    MalformedPayload,
}

/// The index of the last `'.'` in `t`, or `-1` if there is none.
pub open spec fn last_dot(t: Seq<char>) -> int
    decreases t.len(),
{
    if t.len() == 0 {
        -1
    } else if t.last() == '.' {
        t.len() - 1
    } else {
        last_dot(t.drop_last())
    }
}

proof fn lemma_last_dot_none(t: Seq<char>)
    requires
        forall|k: int| 0 <= k < t.len() ==> #[trigger] t[k] != '.',
    ensures
        last_dot(t) == -1,
    decreases t.len(),
{
    if t.len() > 0 {
        assert(t.last() == t[t.len() - 1]);
        lemma_last_dot_none(t.drop_last());
    }
}

proof fn lemma_last_dot_at(t: Seq<char>, j: int)
    requires
        0 <= j < t.len(),
        t[j] == '.',
        forall|k: int| j < k < t.len() ==> #[trigger] t[k] != '.',
    ensures
        last_dot(t) == j,
    decreases t.len(),
{
    if t.last() == '.' {
        assert(t.last() == t[t.len() - 1]);
        assert(j == t.len() - 1);
    } else {
        assert(t.last() == t[t.len() - 1]);
        assert(j < t.len() - 1);
        lemma_last_dot_at(t.drop_last(), j);
    }
}

/// Whether a payload decodes to an identity: exactly 32 hex characters.
pub open spec fn payload_hex_ok(p: Seq<char>) -> bool {
    p.len() == 32 && (forall|i: int| 0 <= i < 32 ==> hex_val(#[trigger] p[i]) != -1)
}

/// What verifying `t` under `key` yields: signature integrity is checked
/// first, over the raw payload characters, and only then is the payload
/// interpreted.
pub open spec fn spec_verify(key: Seq<u8>, t: Seq<char>) -> Result<u128, TokenError> {
    let i = last_dot(t);
    if i < 0 {
        Err(TokenError::InvalidSignature)
    } else {
        let payload = t.subrange(0, i);
        let sig = t.subrange(i + 1, t.len() as int);
        if sig != hex_of_bytes(hmac_sha256(key, encode_utf8(payload))) {
            Err(TokenError::InvalidSignature)
        } else if payload_hex_ok(payload) {
            Ok(value_of(payload.map_values(|c: char| hex_val(c))) as u128)
        } else {
            Err(TokenError::MalformedPayload)
        }
    }
}

proof fn lemma_hex_of_u128_props(n: u128)
    ensures
        hex_of_u128(n).len() == 32,
        forall|i: int| 0 <= i < 32 ==> hex_val(#[trigger] hex_of_u128(n)[i]) != -1,
        forall|i: int| 0 <= i < 32 ==> #[trigger] hex_of_u128(n)[i] != '.',
{
    lemma_nibbles_range(n as int, 32);
    assert forall|i: int| 0 <= i < 32 implies hex_val(#[trigger] hex_of_u128(n)[i]) != -1
        && hex_of_u128(n)[i] != '.' by {
        let d = nibbles_of(n as int, 32)[i];
        lemma_hex_digit_val(d);
    }
}

/// Round trip: a token issued for `id` verifies back to exactly `id`.
///
/// Together with `lemma_verify_only_issued` this is the tamper-evidence the
/// codec itself can promise: a token is accepted exactly when it is,
/// character for character, a token this key would issue.
pub proof fn lemma_issue_verify(key: Seq<u8>, id: u128)
    ensures
        spec_verify(key, spec_issue(key, id)) == Ok::<u128, TokenError>(id),
{
    let p = hex_of_u128(id);
    let mac = hmac_sha256(key, encode_utf8(p));
    let s = hex_of_bytes(mac);
    let t = spec_issue(key, id);
    lemma_hex_of_u128_props(id);
    lemma_hex_of_bytes_props(mac);
    assert(t[32] == '.');
    assert forall|k: int| 32 < k < t.len() implies #[trigger] t[k] != '.' by {
        assert(t[k] == s[k - 33]);
        lemma_hex_val_digit(s[k - 33]);
    }
    lemma_last_dot_at(t, 32);
    assert(t.subrange(0, 32) =~= p);
    assert(t.subrange(33, t.len() as int) =~= s);
    assert(payload_hex_ok(p));
    let vals = p.map_values(|c: char| hex_val(c));
    assert(vals =~= nibbles_of(id as int, 32)) by {
        lemma_nibbles_range(id as int, 32);
        assert forall|i: int| 0 <= i < 32 implies vals[i] == nibbles_of(id as int, 32)[i] by {
            lemma_hex_digit_val(nibbles_of(id as int, 32)[i]);
        }
    }
    lemma_pow16_32();
    lemma_nibbles_value(id as int, 32);
}

/// Soundness: a token that verifies to `id` is, character for character, the
/// token issued for `id` under this key. Any token that differs from every
/// issued token is rejected.
pub proof fn lemma_verify_only_issued(key: Seq<u8>, t: Seq<char>, id: u128)
    requires
        spec_verify(key, t) == Ok::<u128, TokenError>(id),
    ensures
        t == spec_issue(key, id),
{
    let i = last_dot(t);
    lemma_last_dot_range(t);
    let payload = t.subrange(0, i);
    let sig = t.subrange(i + 1, t.len() as int);
    let vals = payload.map_values(|c: char| hex_val(c));
    assert forall|j: int| 0 <= j < 32 implies 0 <= #[trigger] vals[j] < 16 by {
        lemma_hex_val_digit(payload[j]);
    }
    lemma_value_of_bound(vals);
    lemma_pow16_32();
    assert(id == value_of(vals));
    lemma_value_nibbles(vals);
    assert(hex_of_u128(id) =~= payload) by {
        assert forall|j: int| 0 <= j < 32 implies hex_chars_of(nibbles_of(id as int, 32))[j]
            == payload[j] by {
            assert(nibbles_of(id as int, 32)[j] == vals[j]);
            lemma_hex_val_digit(payload[j]);
        }
    }
    assert(t =~= payload + seq![t[i]] + sig);
}

proof fn lemma_last_dot_range(t: Seq<char>)
    ensures
        -1 <= last_dot(t) < t.len(),
        last_dot(t) >= 0 ==> t[last_dot(t)] == '.',
    decreases t.len(),
{
    if t.len() > 0 {
        assert(t.last() == t[t.len() - 1]);
        if t.last() != '.' {
            lemma_last_dot_range(t.drop_last());
        }
    }
}

// ---------------------------------------------------------------------------
// The codec
// ---------------------------------------------------------------------------
/// Signs and verifies compact session tokens under a process-wide key that is
/// fixed at construction.
///
/// Tokens are perpetual by design: they carry no expiry claim. Possession of
/// a valid token proves identity only; every authorization decision is
/// re-resolved against current membership state, so revocation acts through
/// roles and account removal, not through token invalidation.
pub struct TokenCodec {
    key: Vec<u8>,
}

impl TokenCodec {
    /// The signing key.
    pub closed spec fn spec_key(&self) -> Seq<u8> {
        self.key@
    }

    pub fn new(key: Vec<u8>) -> (c: TokenCodec)
        ensures
            c.spec_key() == key@,
    {
        TokenCodec { key }
    }

    /// Serialize and sign a session token asserting `user`.
    pub fn issue(&self, user: UserId) -> (t: String)
        ensures
            t@ == spec_issue(self.spec_key(), user.0),
    {
        let mut payload = String::new();
        push_hex_u128(&mut payload, user.0, 32);
        proof {
            assert(payload@ =~= hex_of_u128(user.0));
        }
        let mac = compute_hmac(self.key.as_slice(), payload.as_str().as_bytes());
        let mut tok = payload;
        proof {
            reveal_strlit(".");
        }
        tok.append(".");
        push_hex_bytes(&mut tok, &mac);
        proof {
            assert(tok@ =~= spec_issue(self.spec_key(), user.0));
        }
        tok
    }

    /// Check a token's signature, then decode its payload.
    ///
    /// Accepts exactly the tokens this key issues: see `lemma_issue_verify`
    /// and `lemma_verify_only_issued`.
    pub fn verify_token(&self, token: &str) -> (r: Result<UserId, TokenError>)
        ensures
            match r {
                Ok(u) => spec_verify(self.spec_key(), token@) == Ok::<u128, TokenError>(u.0),
                Err(e) => spec_verify(self.spec_key(), token@) == Err::<u128, TokenError>(e),
            },
    {
        let n = token.unicode_len();
        // find the last '.'
        let mut j: usize = n;
        let mut dot: usize = n;  // `n` means: none found
        let mut found: bool = false;
        while j > 0 && !found
            invariant
                j <= n,
                n == token@.len(),
                !found ==> forall|k: int| j <= k < n ==> #[trigger] token@[k] != '.',
                found ==> dot < n && token@[dot as int] == '.' && forall|k: int|
                    dot < k < n ==> #[trigger] token@[k] != '.',
            decreases j as int + (if found { 0int } else { 1int }),
        {
            j -= 1;
            if token.get_char(j) == '.' {
                dot = j;
                found = true;
            }
        }
        if !found {
            proof {
                lemma_last_dot_none(token@);
            }
            return Err(TokenError::InvalidSignature);
        }
        proof {
            lemma_last_dot_at(token@, dot as int);
        }
        let payload = token.substring_char(0, dot);
        let sig = token.substring_char(dot + 1, n);
        // signature integrity first, over the raw payload bytes
        let mac = compute_hmac(self.key.as_slice(), payload.as_bytes());
        let mut expected = String::new();
        push_hex_bytes(&mut expected, &mac);
        proof {
            assert(expected@ =~= hex_of_bytes(hmac_sha256(
                self.spec_key(),
                encode_utf8(token@.subrange(0, dot as int)),
            )));
        }
        if !(expected == sig.to_owned()) {
            return Err(TokenError::InvalidSignature);
        }
        // only now interpret the payload
        let plen = payload.unicode_len();
        if plen != 32 {
            return Err(TokenError::MalformedPayload);
        }
        let ghost pv = token@.subrange(0, dot as int).map_values(|c: char| hex_val(c));
        let mut m: u128 = 0;
        let mut i: usize = 0;
        proof {
            assert(pv.take(0) =~= Seq::<int>::empty());
            lemma_pow16_32();
        }
        while i < 32
            invariant
                i <= 32,
                dot < n,
                n == token@.len(),
                last_dot(token@) == dot as int,
                payload@ == token@.subrange(0, dot as int),
                payload@.len() == 32,
                token@.subrange(dot as int + 1, n as int) == hex_of_bytes(
                    hmac_sha256(self.spec_key(), encode_utf8(token@.subrange(0, dot as int))),
                ),
                pv == payload@.map_values(|c: char| hex_val(c)),
                forall|k: int| 0 <= k < i ==> #[trigger] pv[k] != -1,
                m as int == value_of(pv.take(i as int)),
                m < pow16(i as nat),
                pow16(32) == 0x100000000000000000000000000000000,
            decreases 32 - i,
    {
            let c = payload.get_char(i);
            let v = hex_val_exec(c);
            if v == 16 {
                assert(hex_val(token@.subrange(0, dot as int)[i as int]) == -1);
                return Err(TokenError::MalformedPayload);
            }
            proof {
                lemma_pow16_mono((i + 1) as nat, 32);
                lemma_value_of_take_step(pv, i as int);
            }
            m = m * 16 + (v as u128);
            i += 1;
        }
        proof {
            assert(pv.take(32) =~= pv);
            assert(payload_hex_ok(token@.subrange(0, dot as int))) by {
                assert forall|k: int| 0 <= k < 32 implies hex_val(
                    #[trigger] token@.subrange(0, dot as int)[k],
                ) != -1 by {
                    assert(pv[k] != -1);
                }
            }
            assert(value_of(pv) >= 0) by {
                assert(m as int == value_of(pv));
            }
        }
        Ok(UserId(m))
    }
}

proof fn lemma_value_of_take_step(s: Seq<int>, i: int)
    requires
        0 <= i < s.len(),
    ensures
        value_of(s.take(i + 1)) == value_of(s.take(i)) * 16 + s[i],
{
    let t = s.take(i + 1);
    assert(t.drop_last() =~= s.take(i));
    assert(t.last() == s[i]);
}

} // verus!
