//! The challenge token: `nonce ":" timestamp ":" authenticator`, where the
//! authenticator is the base64 HMAC-SHA256, under the server secret, of the
//! nonce's UTF-8 bytes, the answer byte and the big-endian timestamp.
use vstd::prelude::*;
use vstd::utf8::encode_utf8;
use crate::crypto::{
    base64_decode, base64_encode, base64_of, constant_time_eq, hmac_sha256, hmac_sha256_of,
    is_base64_text, is_uuid_text, now_secs, random_uuid_text,
};
use crate::decimal::{all_digits, decimal_of, lemma_decimal_len_19, lemma_decimal_of, lemma_parse_decimal, parse_u64, parse_u64_spec, push_decimal, is_digit};

verus! {

/// The pieces of `s` between its `:` characters, as `str::split(':')` gives them.
pub open spec fn split_colon(s: Seq<char>) -> Seq<Seq<char>>
    decreases s.len(),
{
    if s.len() == 0 {
        seq![Seq::<char>::empty()]
    } else {
        let init = split_colon(s.drop_last());
        if s.last() == ':' {
            init.push(Seq::<char>::empty())
        } else {
            init.update(init.len() - 1, init.last().push(s.last()))
        }
    }
}

/// Whether `s` holds no `:`.
pub open spec fn colon_free(s: Seq<char>) -> bool {
    forall|i: int| 0 <= i < s.len() ==> #[trigger] s[i] != ':'
}

/// The eight bytes of `n`, most significant first.
pub open spec fn be64(n: u64) -> Seq<u8> {
    seq![
        (n >> 56u64) as u8,
        (n >> 48u64) as u8,
        (n >> 40u64) as u8,
        (n >> 32u64) as u8,
        (n >> 24u64) as u8,
        (n >> 16u64) as u8,
        (n >> 8u64) as u8,
        n as u8,
    ]
}

/// The bytes that the authenticator covers.
pub open spec fn auth_message(nonce: Seq<char>, answer: u8, timestamp: u64) -> Seq<u8> {
    encode_utf8(nonce) + seq![answer] + be64(timestamp)
}

/// The authenticator text for a nonce, an answer and a timestamp.
pub open spec fn authenticator(secret: Seq<u8>, nonce: Seq<char>, answer: u8, timestamp: u64) -> Seq<char> {
    base64_of(hmac_sha256_of(secret, auth_message(nonce, answer, timestamp)))
}

/// The token text with the given three fields.
pub open spec fn token_text(nonce: Seq<char>, timestamp: u64, auth: Seq<char>) -> Seq<char> {
    nonce + seq![':'] + decimal_of(timestamp as nat) + seq![':'] + auth
}

/// `a + b`, or `u64::MAX` where that does not fit.
pub open spec fn sat_add(a: u64, b: u64) -> u64 {
    if a + b > u64::MAX { u64::MAX } else { (a + b) as u64 }
}

/// Whether `id` is accepted, at clock reading `now`, as a token for `guess`:
/// it splits into exactly three non-empty fields, the middle one reads as a
/// `u64` timestamp, `now` is at most `timestamp + ttl` (saturating), and the
/// third field is the authenticator for the first field, `guess` and the
/// timestamp.
pub open spec fn accepts_at(secret: Seq<u8>, id: Seq<char>, guess: u8, ttl: u64, now: u64) -> bool {
    let f = split_colon(id);
    &&& f.len() == 3
    &&& f[0].len() > 0 && f[1].len() > 0 && f[2].len() > 0
    &&& parse_u64_spec(f[1]) is Some
    &&& now <= sat_add(parse_u64_spec(f[1])->0, ttl)
    &&& f[2] == authenticator(secret, f[0], guess, parse_u64_spec(f[1])->0)
}

/// Whether `id` is the token that minting gives for `answer` at `timestamp`
/// with this `nonce`: a UUID text, and an authenticator in the base64 alphabet.
pub open spec fn minted_with(secret: Seq<u8>, nonce: Seq<char>, answer: u8, timestamp: u64, id: Seq<char>) -> bool {
    &&& is_uuid_text(nonce)
    &&& is_base64_text(authenticator(secret, nonce, answer, timestamp))
    &&& authenticator(secret, nonce, answer, timestamp).len() == 44
    &&& id == token_text(nonce, timestamp, authenticator(secret, nonce, answer, timestamp))
}

/// Whether `id` is a token minted for `answer` at `timestamp`, for some nonce.
pub open spec fn minted(secret: Seq<u8>, answer: u8, timestamp: u64, id: Seq<char>) -> bool {
    exists|nonce: Seq<char>| minted_with(secret, nonce, answer, timestamp, id)
}

proof fn lemma_split_len(s: Seq<char>)
    ensures
        split_colon(s).len() >= 1,
    decreases s.len(),
{
    if s.len() > 0 {
        lemma_split_len(s.drop_last());
    }
}

/// Appending text without `:` extends the last piece.
proof fn lemma_split_plain(p: Seq<char>, w: Seq<char>)
    requires
        colon_free(w),
    ensures
        split_colon(p + w) == split_colon(p).update(
            split_colon(p).len() - 1,
            split_colon(p).last() + w,
        ),
    decreases w.len(),
{
    lemma_split_len(p);
    if w.len() == 0 {
        assert(p + w =~= p);
        assert(split_colon(p).last() + w =~= split_colon(p).last());
        assert(split_colon(p).update(split_colon(p).len() - 1, split_colon(p).last())
            =~= split_colon(p));
    } else {
        let w0 = w.drop_last();
        assert(colon_free(w0)) by {
            assert forall|i: int| 0 <= i < w0.len() implies #[trigger] w0[i] != ':' by {
                assert(w0[i] == w[i]);
            }
        }
        lemma_split_plain(p, w0);
        assert((p + w).drop_last() =~= p + w0);
        assert((p + w).last() == w.last());
        assert(w.last() == w[w.len() - 1]);
        assert(split_colon(p).last() + w0 + seq![w.last()] =~= split_colon(p).last() + w);
        assert(w[w.len() - 1] != ':');
        let sp = split_colon(p);
        let init = split_colon(p + w0);
        assert(init == sp.update(sp.len() - 1, sp.last() + w0));
        assert(init.len() == sp.len());
        assert(init.last() == sp.last() + w0);
        assert(split_colon(p + w) == init.update(init.len() - 1, init.last().push((p + w).last())));
        assert((sp.last() + w0).push(w.last()) =~= sp.last() + w);
        assert(split_colon(p + w) =~= split_colon(p).update(
            split_colon(p).len() - 1,
            split_colon(p).last() + w,
        ));
    }
}

/// Appending one `:` starts a new, empty piece.
proof fn lemma_split_colon(p: Seq<char>)
    ensures
        split_colon(p + seq![':']) == split_colon(p).push(Seq::<char>::empty()),
{
    assert((p + seq![':']).drop_last() =~= p);
}

/// A text of three colon-free fields joined by `:` splits back into them.
proof fn lemma_split_three(a: Seq<char>, b: Seq<char>, c: Seq<char>)
    requires
        colon_free(a),
        colon_free(b),
        colon_free(c),
    ensures
        split_colon(a + seq![':'] + b + seq![':'] + c) == seq![a, b, c],
{
    let e = Seq::<char>::empty();
    lemma_split_plain(e, a);
    assert(e + a =~= a);
    assert(e + a == a);
    assert(split_colon(e) == seq![e]);
    assert(split_colon(a) =~= seq![a]);
    lemma_split_colon(a);
    let a1 = a + seq![':'];
    lemma_split_plain(a1, b);
    assert(split_colon(a1 + b) =~= seq![a, b]);
    lemma_split_colon(a1 + b);
    let b1 = a1 + b + seq![':'];
    lemma_split_plain(b1, c);
    assert(split_colon(b1 + c) =~= seq![a, b, c]);
}

proof fn lemma_uuid_colon_free(s: Seq<char>)
    requires
        is_uuid_text(s),
    ensures
        colon_free(s),
{
    assert forall|i: int| 0 <= i < s.len() implies #[trigger] s[i] != ':' by {
        if i == 8 || i == 13 || i == 18 || i == 23 {
        } else {
            assert(crate::crypto::is_lower_hex(s[i]));
        }
    }
}

proof fn lemma_base64_colon_free(s: Seq<char>)
    requires
        is_base64_text(s),
    ensures
        colon_free(s),
{
    assert forall|i: int| 0 <= i < s.len() implies #[trigger] s[i] != ':' by {
        assert(crate::crypto::is_base64_char(s[i]));
    }
}

proof fn lemma_decimal_colon_free(n: u64)
    ensures
        colon_free(decimal_of(n as nat)),
{
    lemma_decimal_of(n as nat);
    let s = decimal_of(n as nat);
    assert forall|i: int| 0 <= i < s.len() implies #[trigger] s[i] != ':' by {
        assert(is_digit(s[i]));
    }
}

/// A minted token splits into its nonce, its timestamp's decimal text and its
/// authenticator.
pub proof fn lemma_minted_fields(secret: Seq<u8>, nonce: Seq<char>, answer: u8, timestamp: u64, id: Seq<char>)
    requires
        minted_with(secret, nonce, answer, timestamp, id),
    ensures
        split_colon(id) == seq![
            nonce,
            decimal_of(timestamp as nat),
            authenticator(secret, nonce, answer, timestamp),
        ],
        parse_u64_spec(decimal_of(timestamp as nat)) == Some(timestamp),
{
    let auth = authenticator(secret, nonce, answer, timestamp);
    lemma_uuid_colon_free(nonce);
    lemma_base64_colon_free(auth);
    lemma_decimal_colon_free(timestamp);
    lemma_split_three(nonce, decimal_of(timestamp as nat), auth);
    lemma_parse_decimal(timestamp);
}

/// A minted token is a 36-character nonce, the timestamp's one to twenty
/// digits and a 44-character authenticator, joined by two `:`: at most 102
/// characters, and at most 101 for any timestamp below `10^19`.
pub proof fn lemma_minted_token_length(secret: Seq<u8>, answer: u8, timestamp: u64, id: Seq<char>)
    requires
        minted(secret, answer, timestamp, id),
    ensures
        id.len() == 82 + decimal_of(timestamp as nat).len(),
        1 <= decimal_of(timestamp as nat).len() <= 20,
        id.len() <= 102,
        timestamp < 10_000_000_000_000_000_000u64 ==> id.len() <= 101,
{
    let nonce = choose|nonce: Seq<char>| minted_with(secret, nonce, answer, timestamp, id);
    lemma_minted_fields(secret, nonce, answer, timestamp, id);
    if timestamp < 10_000_000_000_000_000_000u64 {
        lemma_decimal_len_19(timestamp);
    }
}

/// A token minted for `answer` is accepted for `answer` at every clock reading
/// up to its timestamp plus the time to live.
pub proof fn lemma_minted_token_verifies(
    secret: Seq<u8>,
    answer: u8,
    timestamp: u64,
    id: Seq<char>,
    ttl: u64,
    now: u64,
)
    requires
        minted(secret, answer, timestamp, id),
        now <= sat_add(timestamp, ttl),
    ensures
        accepts_at(secret, id, answer, ttl, now),
{
    let nonce = choose|nonce: Seq<char>| minted_with(secret, nonce, answer, timestamp, id);
    lemma_minted_fields(secret, nonce, answer, timestamp, id);
    lemma_decimal_of(timestamp as nat);
}

/// A token minted for `answer` is accepted for another guess, or under another
/// secret, only where the two authenticators coincide: acceptance of a wrong
/// guess or a foreign secret rests on an HMAC-SHA256 collision alone.
pub proof fn lemma_minted_token_other_guess(
    secret: Seq<u8>,
    nonce: Seq<char>,
    answer: u8,
    timestamp: u64,
    id: Seq<char>,
    other_secret: Seq<u8>,
    guess: u8,
    ttl: u64,
    now: u64,
)
    requires
        minted_with(secret, nonce, answer, timestamp, id),
    ensures
        accepts_at(other_secret, id, guess, ttl, now) <==> (now <= sat_add(timestamp, ttl)
            && authenticator(other_secret, nonce, guess, timestamp) == authenticator(
            secret,
            nonce,
            answer,
            timestamp,
        )),
{
    lemma_minted_fields(secret, nonce, answer, timestamp, id);
    lemma_decimal_of(timestamp as nat);
}

/// A token is refused once the clock reads past its timestamp plus the time to
/// live.
pub proof fn lemma_expired_token_refused(
    secret: Seq<u8>,
    id: Seq<char>,
    guess: u8,
    ttl: u64,
    now: u64,
)
    requires
        split_colon(id).len() == 3,
        parse_u64_spec(split_colon(id)[1]) is Some,
        now > sat_add(parse_u64_spec(split_colon(id)[1])->0, ttl),
    ensures
        !accepts_at(secret, id, guess, ttl, now),
{
}

/// Malformed tokens are refused: one whose `:` count is not two (one with no
/// `:` at all among them), one whose middle field holds a character that is
/// not an ASCII digit (a sign, a space, a point), and more generally one whose
/// middle field is not one to twenty digits denoting a `u64`.
pub proof fn lemma_malformed_token_refused(
    secret: Seq<u8>,
    id: Seq<char>,
    guess: u8,
    ttl: u64,
    now: u64,
)
    ensures
        colon_free(id) ==> !accepts_at(secret, id, guess, ttl, now),
        split_colon(id).len() != 3 ==> !accepts_at(secret, id, guess, ttl, now),
        split_colon(id).len() == 3 && !all_digits(split_colon(id)[1]) ==> !accepts_at(
            secret,
            id,
            guess,
            ttl,
            now,
        ),
        split_colon(id).len() == 3 && parse_u64_spec(split_colon(id)[1]) is None ==> !accepts_at(
            secret,
            id,
            guess,
            ttl,
            now,
        ),
{
    if colon_free(id) {
        let e = Seq::<char>::empty();
        lemma_split_plain(e, id);
        assert(e + id =~= id);
        assert(split_colon(e) == seq![e]);
    }
}

/// The positions of the two `:` of `s`, where it holds exactly two.
fn colon_positions(s: &str) -> (r: Option<(usize, usize)>)
    ensures
        r is None <==> split_colon(s@).len() != 3,
        r matches Some((p, q)) ==> {
            &&& p < q < s@.len()
            &&& split_colon(s@) == seq![
                s@.subrange(0, p as int),
                s@.subrange(p + 1, q as int),
                s@.subrange(q + 1, s@.len() as int),
            ]
        },
{
    let len = s.unicode_len();
    let mut i: usize = 0;
    let mut count: usize = 0;
    let mut first: usize = 0;
    let mut second: usize = 0;
    let mut last_start: usize = 0;
    while i < len
        invariant
            len == s@.len(),
            i <= len,
            count <= i,
            last_start <= i,
            split_colon(s@.subrange(0, i as int)).len() == count + 1,
            split_colon(s@.subrange(0, i as int)).last() == s@.subrange(last_start as int, i as int),
            count == 0 ==> last_start == 0,
            count >= 1 ==> first < last_start && split_colon(s@.subrange(0, i as int))[0]
                == s@.subrange(0, first as int),
            count == 1 ==> last_start == first + 1,
            count >= 2 ==> first < second && second < last_start && split_colon(
                s@.subrange(0, i as int),
            )[1] == s@.subrange(first + 1, second as int),
            count == 2 ==> last_start == second + 1,
        decreases len - i,
    {
        let ghost pre = s@.subrange(0, i as int);
        let ghost next = s@.subrange(0, i + 1);
        assert(next.drop_last() =~= pre);
        assert(next.last() == s@[i as int]);
        let c = s.get_char(i);
        if c == ':' {
            if count == 0 {
                first = i;
            } else if count == 1 {
                second = i;
            }
            count = count + 1;
            last_start = i + 1;
            assert(split_colon(next).last() =~= s@.subrange(last_start as int, i + 1));
        } else {
            assert(s@.subrange(last_start as int, i + 1) =~= s@.subrange(last_start as int, i as int).push(c));
        }
        i = i + 1;
    }
    assert(s@.subrange(0, len as int) =~= s@);
    if count == 2 {
        let ghost sp = split_colon(s@);
        assert(sp =~= seq![
            s@.subrange(0, first as int),
            s@.subrange(first + 1, second as int),
            s@.subrange(second + 1, s@.len() as int),
        ]);
        Some((first, second))
    } else {
        None
    }
}

/// The eight bytes of `n`, most significant first.
fn push_be64(out: &mut Vec<u8>, n: u64)
    ensures
        final(out)@ == old(out)@ + be64(n),
{
    out.push((n >> 56u64) as u8);
    out.push((n >> 48u64) as u8);
    out.push((n >> 40u64) as u8);
    out.push((n >> 32u64) as u8);
    out.push((n >> 24u64) as u8);
    out.push((n >> 16u64) as u8);
    out.push((n >> 8u64) as u8);
    out.push(n as u8);
    assert(final(out)@ =~= old(out)@ + be64(n));
}

/// The bytes that the authenticator covers.
fn build_auth_message(nonce: &str, answer: u8, timestamp: u64) -> (r: Vec<u8>)
    ensures
        r@ == auth_message(nonce@, answer, timestamp),
{
    let bytes = nonce.as_bytes();
    let mut msg: Vec<u8> = Vec::new();
    let mut i: usize = 0;
    while i < bytes.len()
        invariant
            i <= bytes@.len(),
            bytes@ == encode_utf8(nonce@),
            msg@ == bytes@.subrange(0, i as int),
        decreases bytes@.len() - i,
    {
        msg.push(bytes[i]);
        i = i + 1;
        assert(msg@ =~= bytes@.subrange(0, i as int));
    }
    assert(msg@ =~= encode_utf8(nonce@));
    msg.push(answer);
    push_be64(&mut msg, timestamp);
    assert(msg@ =~= auth_message(nonce@, answer, timestamp));
    msg
}

/// The authenticator text for a nonce, an answer and a timestamp.
fn compute_authenticator(secret: &[u8], nonce: &str, answer: u8, timestamp: u64) -> (r: String)
    ensures
        r@ == authenticator(secret@, nonce@, answer, timestamp),
        is_base64_text(r@),
        r@.len() == 44,
{
    let msg = build_auth_message(nonce, answer, timestamp);
    let tag = hmac_sha256(secret, msg.as_slice());
    base64_encode(tag.as_slice())
}

/// The token for `nonce`, `timestamp` and `correct_number` under `secret`.
pub fn build_challenge_id_with(nonce: &str, timestamp: u64, correct_number: u8, secret: &[u8]) -> (r: String)
    ensures
        r@ == token_text(nonce@, timestamp, authenticator(secret@, nonce@, correct_number, timestamp)),
        is_base64_text(authenticator(secret@, nonce@, correct_number, timestamp)),
        authenticator(secret@, nonce@, correct_number, timestamp).len() == 44,
{
    let auth = compute_authenticator(secret, nonce, correct_number, timestamp);
    let mut id = String::from_str(nonce);
    proof {
        reveal_strlit(":");
    }
    id.append(":");
    push_decimal(&mut id, timestamp);
    id.append(":");
    id.append(auth.as_str());
    assert(id@ =~= token_text(nonce@, timestamp, auth@));
    id
}

/// Mints a token for `correct_number` under `secret`, with a fresh random
/// nonce and the current clock reading, which it also returns.
pub fn build_challenge_id(correct_number: u8, secret: &[u8]) -> (r: (String, u64))
    ensures
        minted(secret@, correct_number, r.1, r.0@),
{
    let timestamp = now_secs();
    let nonce = random_uuid_text();
    let id = build_challenge_id_with(nonce.as_str(), timestamp, correct_number, secret);
    assert(minted_with(secret@, nonce@, correct_number, timestamp, id@));
    (id, timestamp)
}

/// Whether `challenge_id` is accepted for `selected_index` at clock reading
/// `now`. The checks on the token's shape, timestamp and freshness come first;
/// the authenticator is compared in constant time.
pub fn verify_at(secret: &[u8], challenge_id: &str, selected_index: u8, ttl: u64, now: u64) -> (r: bool)
    ensures
        r == accepts_at(secret@, challenge_id@, selected_index, ttl, now),
        r ==> is_base64_text(split_colon(challenge_id@)[2]),
        r ==> forall|v: Seq<u8>| #[trigger] base64_of(v) == split_colon(challenge_id@)[2] ==> v.len() == 32,
{
    let (p, q) = match colon_positions(challenge_id) {
        Some(pq) => pq,
        None => return false,
    };
    let len = challenge_id.unicode_len();
    if p == 0 || q == p + 1 || q + 1 == len {
        return false;
    }
    let nonce = challenge_id.substring_char(0, p);
    let timestamp_text = challenge_id.substring_char(p + 1, q);
    let code = challenge_id.substring_char(q + 1, len);
    let timestamp = match parse_u64(timestamp_text) {
        Some(t) => t,
        None => return false,
    };
    if now > timestamp.saturating_add(ttl) {
        return false;
    }
    let msg = build_auth_message(nonce, selected_index, timestamp);
    let computed = hmac_sha256(secret, msg.as_slice());
    let expected = match base64_decode(code) {
        Some(bytes) => bytes,
        None => return false,
    };
    if expected.len() != computed.len() {
        return false;
    }
    constant_time_eq(computed.as_slice(), expected.as_slice())
}

/// Whether `challenge_id` is accepted for `selected_index`, at the clock
/// reading taken during the call.
pub fn verify(secret: &[u8], challenge_id: &str, selected_index: u8, ttl: u64) -> (r: bool)
    ensures
        exists|now: u64| r == accepts_at(secret@, challenge_id@, selected_index, ttl, now),
{
    let now = now_secs();
    verify_at(secret, challenge_id, selected_index, ttl, now)
}

} // verus!
