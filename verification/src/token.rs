use vstd::prelude::*;

use crate::errors::TokenError;

verus! {

/// The process-wide signing secret, read-only after startup, injected
/// into issuance and verification rather than read from a hidden
/// global.
pub struct SigningKey {
    pub bytes: Vec<u8>,
}

impl View for SigningKey {
    type V = Seq<u8>;

    open spec fn view(&self) -> Seq<u8> {
        self.bytes@
    }
}

/// The claims carried by a session token: subject id and email, and the
/// absolute issuance and expiry times (seconds). Transient, never
/// persisted.
#[derive(Debug)]
pub struct SessionAssertion {
    pub user_id: u128,
    pub email: Vec<u8>,
    pub issued_at: u64,
    pub expires_at: u64,
}

pub const TAG_SEED: u64 = 5381;

/// One step of the keyed integrity tag: multiply-accumulate modulo
/// 2^64.
pub open spec fn tag_step(acc: u64, b: u8) -> u64 {
    ((((acc as int) * 131 + (b as int)) + 17) % 0x10000000000000000) as u64
}

pub open spec fn tag_chain(acc: u64, s: Seq<u8>) -> u64
    decreases s.len(),
{
    if s.len() == 0 {
        acc
    } else {
        tag_chain(tag_step(acc, s.first()), s.drop_first())
    }
}

/// The integrity tag over a payload: the key bytes are absorbed first,
/// then the payload bytes.
pub open spec fn tag_of(key: Seq<u8>, msg: Seq<u8>) -> u64 {
    tag_chain(tag_chain(TAG_SEED, key), msg)
}

/// Big-endian bytes of a 64-bit value.
pub open spec fn u64_bytes(x: u64) -> Seq<u8> {
    seq![
        ((x >> 56) & 0xff) as u8,
        ((x >> 48) & 0xff) as u8,
        ((x >> 40) & 0xff) as u8,
        ((x >> 32) & 0xff) as u8,
        ((x >> 24) & 0xff) as u8,
        ((x >> 16) & 0xff) as u8,
        ((x >> 8) & 0xff) as u8,
        (x & 0xff) as u8,
    ]
}

/// The 64-bit value read back from 8 big-endian bytes.
pub open spec fn u64_of_bytes(s: Seq<u8>) -> u64 {
    ((s[0] as u64) << 56) | ((s[1] as u64) << 48) | ((s[2] as u64) << 40) | ((s[3] as u64) << 32)
        | ((s[4] as u64) << 24) | ((s[5] as u64) << 16) | ((s[6] as u64) << 8) | (s[7] as u64)
}

/// Big-endian bytes of a 128-bit value, high half first.
pub open spec fn u128_bytes(x: u128) -> Seq<u8> {
    u64_bytes(((x >> 64) & 0xffffffffffffffff) as u64) + u64_bytes((x & 0xffffffffffffffff) as u64)
}

/// The 128-bit value read back from 16 big-endian bytes.
pub open spec fn u128_of_bytes(s: Seq<u8>) -> u128 {
    ((u64_of_bytes(s.subrange(0, 8)) as u128) << 64) | (u64_of_bytes(
        s.subrange(8, 16),
    ) as u128)
}

proof fn lemma_u64_round_trip(x: u64)
    ensures
        u64_of_bytes(u64_bytes(x)) == x,
{
    let s = u64_bytes(x);
    assert(((((x >> 56) & 0xff) as u8 as u64) << 56) | ((((x >> 48) & 0xff) as u8 as u64) << 48)
        | ((((x >> 40) & 0xff) as u8 as u64) << 40) | ((((x >> 32) & 0xff) as u8 as u64) << 32) | ((
    ((x >> 24) & 0xff) as u8 as u64) << 24) | ((((x >> 16) & 0xff) as u8 as u64) << 16) | ((((x
        >> 8) & 0xff) as u8 as u64) << 8) | ((x & 0xff) as u8 as u64) == x) by (bit_vector);
}

proof fn lemma_u64_bytes_inverse(s: Seq<u8>)
    requires
        s.len() == 8,
    ensures
        u64_bytes(u64_of_bytes(s)) =~= s,
{
    let x = u64_of_bytes(s);
    let b0 = s[0];
    let b1 = s[1];
    let b2 = s[2];
    let b3 = s[3];
    let b4 = s[4];
    let b5 = s[5];
    let b6 = s[6];
    let b7 = s[7];
    let y = ((b0 as u64) << 56) | ((b1 as u64) << 48) | ((b2 as u64) << 40) | ((b3 as u64) << 32)
        | ((b4 as u64) << 24) | ((b5 as u64) << 16) | ((b6 as u64) << 8) | (b7 as u64);
    assert((((y >> 56) & 0xff) as u8 == b0) && (((y >> 48) & 0xff) as u8 == b1) && (((y >> 40)
        & 0xff) as u8 == b2) && (((y >> 32) & 0xff) as u8 == b3) && (((y >> 24) & 0xff) as u8 == b4)
        && (((y >> 16) & 0xff) as u8 == b5) && (((y >> 8) & 0xff) as u8 == b6) && ((y & 0xff) as u8
        == b7)) by (bit_vector)
        requires
            y == ((b0 as u64) << 56) | ((b1 as u64) << 48) | ((b2 as u64) << 40) | ((b3 as u64)
                << 32) | ((b4 as u64) << 24) | ((b5 as u64) << 16) | ((b6 as u64) << 8) | (
            b7 as u64),
    ;
    assert(x == y);
    assert(u64_bytes(x) =~= s);
}

proof fn lemma_u128_round_trip(x: u128)
    ensures
        u128_of_bytes(u128_bytes(x)) == x,
{
    let hi = ((x >> 64) & 0xffffffffffffffff) as u64;
    let lo = (x & 0xffffffffffffffff) as u64;
    assert(u128_bytes(x).subrange(0, 8) =~= u64_bytes(hi));
    assert(u128_bytes(x).subrange(8, 16) =~= u64_bytes(lo));
    lemma_u64_round_trip(hi);
    lemma_u64_round_trip(lo);
    assert((((((x >> 64) & 0xffffffffffffffff) as u64) as u128) << 64) | ((((x
        & 0xffffffffffffffff) as u64) as u128)) == x) by (bit_vector);
}

/// The token is well formed under `key`: long enough to carry the fixed
/// header and the tag, and its trailing 8 bytes are the tag of
/// everything before them.
pub open spec fn token_wf(key: Seq<u8>, t: Seq<u8>) -> bool {
    &&& t.len() >= 40
    &&& t.subrange(t.len() - 8, t.len() as int) == u64_bytes(
        tag_of(key, t.subrange(0, t.len() - 8)),
    )
}

pub open spec fn token_user_id(t: Seq<u8>) -> u128 {
    u128_of_bytes(t.subrange(0, 16))
}

pub open spec fn token_issued_at(t: Seq<u8>) -> u64 {
    u64_of_bytes(t.subrange(16, 24))
}

pub open spec fn token_expires_at(t: Seq<u8>) -> u64 {
    u64_of_bytes(t.subrange(24, 32))
}

pub open spec fn token_email(t: Seq<u8>) -> Seq<u8> {
    t.subrange(32, t.len() - 8)
}

/// The exact token issued for these claims under `key`.
pub open spec fn issue_spec(
    key: Seq<u8>,
    user_id: u128,
    email: Seq<u8>,
    issued_at: u64,
    expires_at: u64,
) -> Seq<u8> {
    let payload = u128_bytes(user_id) + u64_bytes(issued_at) + u64_bytes(expires_at) + email;
    payload + u64_bytes(tag_of(key, payload))
}

/// An issued token is well formed and carries back exactly the claims
/// it was issued for. Together with the contract of `verify_token`,
/// verification of a fresh token succeeds while `at <= expires_at` and
/// fails with `Expired` once the clock passes `expires_at`.
pub proof fn lemma_issue_token_valid(
    key: Seq<u8>,
    user_id: u128,
    email: Seq<u8>,
    issued_at: u64,
    expires_at: u64,
)
    ensures
        token_wf(key, issue_spec(key, user_id, email, issued_at, expires_at)),
        token_user_id(issue_spec(key, user_id, email, issued_at, expires_at)) == user_id,
        token_email(issue_spec(key, user_id, email, issued_at, expires_at)) == email,
        token_issued_at(issue_spec(key, user_id, email, issued_at, expires_at)) == issued_at,
        token_expires_at(issue_spec(key, user_id, email, issued_at, expires_at)) == expires_at,
{
    let payload = u128_bytes(user_id) + u64_bytes(issued_at) + u64_bytes(expires_at) + email;
    let t = payload + u64_bytes(tag_of(key, payload));
    assert(t.subrange(0, t.len() - 8) =~= payload);
    assert(t.subrange(t.len() - 8, t.len() as int) =~= u64_bytes(tag_of(key, payload)));
    assert(t.subrange(0, 16) =~= u128_bytes(user_id));
    assert(t.subrange(16, 24) =~= u64_bytes(issued_at));
    assert(t.subrange(24, 32) =~= u64_bytes(expires_at));
    assert(t.subrange(32, t.len() - 8) =~= email);
    lemma_u128_round_trip(user_id);
    lemma_u64_round_trip(issued_at);
    lemma_u64_round_trip(expires_at);
}

/// Corrupting any part of a token while keeping its payload — in
/// particular flipping a bit of the trailing tag — leaves a token that
/// no longer verifies under the same key.
pub proof fn lemma_tag_tamper_detected(key: Seq<u8>, t1: Seq<u8>, t2: Seq<u8>)
    requires
        token_wf(key, t1),
        t1.len() == t2.len(),
        t2.subrange(0, t2.len() - 8) == t1.subrange(0, t1.len() - 8),
        t2 != t1,
    ensures
        !token_wf(key, t2),
{
    if token_wf(key, t2) {
        assert(t2.subrange(t2.len() - 8, t2.len() as int) == t1.subrange(
            t1.len() - 8,
            t1.len() as int,
        ));
        assert forall|i: int| 0 <= i < t1.len() implies t1[i] == t2[i] by {
            if i < t1.len() - 8 {
                assert(t1.subrange(0, t1.len() - 8)[i] == t2.subrange(0, t2.len() - 8)[i]);
            } else {
                assert(t1.subrange(t1.len() - 8, t1.len() as int)[i - (t1.len() - 8)]
                    == t2.subrange(t2.len() - 8, t2.len() as int)[i - (t2.len() - 8)]);
            }
        }
        assert(t1 =~= t2);
    }
}

/// Appends the big-endian bytes of `x`.
fn push_u64(v: &mut Vec<u8>, x: u64)
    ensures
        final(v)@ == old(v)@ + u64_bytes(x),
{
    v.push(((x >> 56) & 0xff) as u8);
    v.push(((x >> 48) & 0xff) as u8);
    v.push(((x >> 40) & 0xff) as u8);
    v.push(((x >> 32) & 0xff) as u8);
    v.push(((x >> 24) & 0xff) as u8);
    v.push(((x >> 16) & 0xff) as u8);
    v.push(((x >> 8) & 0xff) as u8);
    v.push((x & 0xff) as u8);
    assert(v@ =~= old(v)@ + u64_bytes(x));
}

/// Appends the big-endian bytes of `x`, high half first.
fn push_u128(v: &mut Vec<u8>, x: u128)
    ensures
        final(v)@ == old(v)@ + u128_bytes(x),
{
    push_u64(v, ((x >> 64) & 0xffffffffffffffff) as u64);
    push_u64(v, (x & 0xffffffffffffffff) as u64);
    assert(v@ =~= old(v)@ + u128_bytes(x));
}

/// Appends all of `s`.
fn push_bytes(v: &mut Vec<u8>, s: &Vec<u8>)
    ensures
        final(v)@ == old(v)@ + s@,
{
    let n = s.len();
    let mut i: usize = 0;
    while i < n
        invariant
            n == s@.len(),
            i <= n,
            v@ == old(v)@ + s@.subrange(0, i as int),
        decreases n - i,
    {
        v.push(s[i]);
        assert(v@ =~= old(v)@ + s@.subrange(0, i + 1));
        i = i + 1;
    }
    assert(v@ =~= old(v)@ + s@);
}

/// The keyed tag over `msg[0..msg_hi]`.
fn compute_tag(key: &Vec<u8>, msg: &Vec<u8>, msg_hi: usize) -> (r: u64)
    requires
        msg_hi <= msg@.len(),
    ensures
        r == tag_of(key@, msg@.subrange(0, msg_hi as int)),
{
    let mut acc: u64 = TAG_SEED;
    let kn = key.len();
    assert(key@.skip(0) =~= key@);
    let mut i: usize = 0;
    while i < kn
        invariant
            kn == key@.len(),
            i <= kn,
            tag_chain(TAG_SEED, key@) == tag_chain(acc, key@.skip(i as int)),
        decreases kn - i,
    {
        let ghost pre_rest = key@.skip(i as int);
        acc = tag_step_exec(acc, key[i]);
        proof {
            assert(pre_rest.drop_first() =~= key@.skip(i + 1));
        }
        i = i + 1;
    }
    assert(key@.skip(kn as int) =~= Seq::<u8>::empty());
    assert(acc == tag_chain(TAG_SEED, key@));
    let ghost after_key = acc;
    let ghost sub = msg@.subrange(0, msg_hi as int);
    assert(sub.skip(0) =~= sub);
    let mut j: usize = 0;
    while j < msg_hi
        invariant
            msg_hi <= msg@.len(),
            j <= msg_hi,
            sub == msg@.subrange(0, msg_hi as int),
            tag_chain(after_key, sub) == tag_chain(acc, sub.skip(j as int)),
        decreases msg_hi - j,
    {
        let ghost pre_rest = sub.skip(j as int);
        assert(pre_rest.first() == msg@[j as int]);
        acc = tag_step_exec(acc, msg[j]);
        proof {
            assert(pre_rest.drop_first() =~= sub.skip(j + 1));
        }
        j = j + 1;
    }
    assert(sub.skip(msg_hi as int) =~= Seq::<u8>::empty());
    acc
}

fn tag_step_exec(acc: u64, b: u8) -> (r: u64)
    ensures
        r == tag_step(acc, b),
{
    let wide: u128 = (acc as u128) * 131 + (b as u128) + 17;
    (wide % 0x10000000000000000u128) as u64
}

/// Builds and signs the session token for these claims: the subject id,
/// the issuance time `now`, the expiry `now + ttl`, and the subject
/// email, followed by the keyed integrity tag. The cookie set from it
/// expires with it.
pub fn issue(key: &SigningKey, user_id: u128, email: &Vec<u8>, now: u64, ttl: u64) -> (t: Vec<u8>)
    requires
        now + ttl <= u64::MAX,
    ensures
        t@ == issue_spec(key@, user_id, email@, now, (now + ttl) as u64),
        token_wf(key@, t@),
        token_user_id(t@) == user_id,
        token_email(t@) == email@,
        token_issued_at(t@) == now,
        token_expires_at(t@) == now + ttl,
{
    let expires_at = now + ttl;
    let mut t: Vec<u8> = Vec::new();
    push_u128(&mut t, user_id);
    push_u64(&mut t, now);
    push_u64(&mut t, expires_at);
    push_bytes(&mut t, email);
    let ghost payload = u128_bytes(user_id) + u64_bytes(now) + u64_bytes(expires_at) + email@;
    assert(t@ =~= payload);
    let n = t.len();
    let tag = compute_tag(&key.bytes, &t, n);
    assert(t@.subrange(0, n as int) =~= payload);
    push_u64(&mut t, tag);
    proof {
        assert(t@ =~= issue_spec(key@, user_id, email@, now, expires_at));
        lemma_issue_token_valid(key@, user_id, email@, now, expires_at);
    }
    t
}

/// Reads a 64-bit value from 8 bytes at `lo`.
fn read_u64(t: &Vec<u8>, lo: usize) -> (r: u64)
    requires
        lo + 8 <= t@.len(),
    ensures
        r == u64_of_bytes(t@.subrange(lo as int, lo + 8)),
{
    let ghost s = t@.subrange(lo as int, lo + 8);
    let n = t.len();
    assert(lo + 8 <= n);
    let r = ((t[lo] as u64) << 56) | ((t[lo + 1] as u64) << 48) | ((t[lo + 2] as u64) << 40) | ((
    t[lo + 3] as u64) << 32) | ((t[lo + 4] as u64) << 24) | ((t[lo + 5] as u64) << 16) | ((t[lo
        + 6] as u64) << 8) | (t[lo + 7] as u64);
    assert(s[0] == t@[lo as int] && s[1] == t@[lo + 1] && s[2] == t@[lo + 2] && s[3] == t@[lo + 3]
        && s[4] == t@[lo + 4] && s[5] == t@[lo + 5] && s[6] == t@[lo + 6] && s[7] == t@[lo + 7]);
    r
}

/// Reads a 128-bit value from 16 bytes at `lo`.
fn read_u128(t: &Vec<u8>, lo: usize) -> (r: u128)
    requires
        lo + 16 <= t@.len(),
    ensures
        r == u128_of_bytes(t@.subrange(lo as int, lo + 16)),
{
    let n = t.len();
    assert(lo + 16 <= n);
    let hi = read_u64(t, lo);
    let lo64 = read_u64(t, lo + 8);
    let ghost s = t@.subrange(lo as int, lo + 16);
    assert(s.subrange(0, 8) =~= t@.subrange(lo as int, lo + 8));
    assert(s.subrange(8, 16) =~= t@.subrange(lo + 8, lo + 16));
    ((hi as u128) << 64) | (lo64 as u128)
}

/// Checks integrity and expiry of a token against the signing key and
/// the current time `now`, and recovers the claims. Fails closed:
/// `InvalidToken` exactly when the token is malformed or its tag does
/// not match, `Expired` exactly when it is well formed but `now` lies
/// past its expiry.
pub fn verify_token(key: &SigningKey, token: &Vec<u8>, now: u64) -> (r: Result<
    SessionAssertion,
    TokenError,
>)
    ensures
        match r {
            Ok(a) => {
                &&& token_wf(key@, token@)
                &&& now <= token_expires_at(token@)
                &&& a.user_id == token_user_id(token@)
                &&& a.email@ == token_email(token@)
                &&& a.issued_at == token_issued_at(token@)
                &&& a.expires_at == token_expires_at(token@)
            },
            Err(TokenError::InvalidToken) => !token_wf(key@, token@),
            Err(TokenError::Expired) => token_wf(key@, token@) && now > token_expires_at(token@),
        },
{
    let n = token.len();
    if n < 40 {
        return Err(TokenError::InvalidToken);
    }
    let computed = compute_tag(&key.bytes, token, n - 8);
    let stored = read_u64(token, n - 8);
    let ghost tail = token@.subrange(n - 8, n as int);
    if stored != computed {
        proof {
            if token_wf(key@, token@) {
                lemma_u64_round_trip(tag_of(key@, token@.subrange(0, n - 8)));
            }
        }
        return Err(TokenError::InvalidToken);
    }
    proof {
        lemma_u64_bytes_inverse(tail);
        assert(token_wf(key@, token@));
    }
    let expires_at = read_u64(token, 24);
    if now > expires_at {
        return Err(TokenError::Expired);
    }
    let user_id = read_u128(token, 0);
    let issued_at = read_u64(token, 16);
    let mut email: Vec<u8> = Vec::new();
    let mut i: usize = 32;
    while i < n - 8
        invariant
            40 <= n <= token@.len(),
            32 <= i <= n - 8,
            email@ == token@.subrange(32, i as int),
        decreases n - 8 - i,
    {
        email.push(token[i]);
        assert(email@ =~= token@.subrange(32, i + 1));
        i = i + 1;
    }
    assert(email@ == token_email(token@));
    Ok(SessionAssertion { user_id, email, issued_at, expires_at })
}

} // verus!
