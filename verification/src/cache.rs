//! Cache keys for chat completion requests: the request fields that select a
//! cached reply are framed into bytes, hashed with SHA-256 and hex encoded.

use sha2::{Digest, Sha256};
use vstd::prelude::*;
use vstd::string::*;
use vstd::utf8::encode_utf8;

verus! {

/// Temperature assumed when the request names none: the bit pattern of `1.0f64`.
pub const DEFAULT_TEMPERATURE_BITS: u64 = 0x3FF0_0000_0000_0000;

/// Token budget assumed when the request names none.
pub const DEFAULT_MAX_TOKENS: u64 = 2048;

/// The request fields that select a cached reply.
pub struct CacheKeyFields {
    /// The `model` field, when it is a string.
    pub model: Option<String>,
    /// The JSON text of the `messages` field (`null` when it is absent), or
    /// `None` when it could not be serialized.
    pub messages_json: Option<Vec<u8>>,
    /// The bit pattern of the `temperature` field read as a 64-bit float,
    /// when it is a number.
    pub temperature_bits: Option<u64>,
    /// The `max_tokens` field, when it is an unsigned integer.
    pub max_tokens: Option<u64>,
}

/// A reply kept in the cache together with the prompt size it answered.
pub struct CacheEntry {
    pub prompt_tokens: usize,
    pub response_json: String,
}

/// What SHA-256 gives for `data`.
pub uninterp spec fn sha256(data: Seq<u8>) -> Seq<u8>;

/// The byte that separates the fields of the hashed text.
pub open spec fn separator() -> u8 {
    124u8
}

/// The ASCII bytes of `default`, hashed in place of a missing model name.
pub open spec fn default_model_bytes() -> Seq<u8> {
    seq![100u8, 101u8, 102u8, 97u8, 117u8, 108u8, 116u8]
}

/// The eight bytes of `x`, most significant first.
pub open spec fn be_bytes(x: u64) -> Seq<u8> {
    seq![
        (x >> 56u64) as u8,
        (x >> 48u64) as u8,
        (x >> 40u64) as u8,
        (x >> 32u64) as u8,
        (x >> 24u64) as u8,
        (x >> 16u64) as u8,
        (x >> 8u64) as u8,
        x as u8,
    ]
}

/// The model name's UTF-8 bytes, or `default`.
pub open spec fn model_bytes(fields: CacheKeyFields) -> Seq<u8> {
    match fields.model {
        Some(m) => encode_utf8(m@),
        None => default_model_bytes(),
    }
}

/// The messages' JSON bytes, or nothing.
pub open spec fn messages_bytes(fields: CacheKeyFields) -> Seq<u8> {
    match fields.messages_json {
        Some(b) => b@,
        None => Seq::empty(),
    }
}

/// The temperature's bit pattern, defaulting to that of `1.0`.
pub open spec fn temperature_or_default(fields: CacheKeyFields) -> u64 {
    match fields.temperature_bits {
        Some(t) => t,
        None => DEFAULT_TEMPERATURE_BITS,
    }
}

/// The token budget, defaulting to 2048.
pub open spec fn max_tokens_or_default(fields: CacheKeyFields) -> u64 {
    match fields.max_tokens {
        Some(m) => m,
        None => DEFAULT_MAX_TOKENS,
    }
}

/// The text that is hashed: model, `|`, messages, `|`, temperature (8 bytes,
/// big-endian), `|`, token budget (8 bytes, big-endian).
pub open spec fn cache_key_preimage(fields: CacheKeyFields) -> Seq<u8> {
    model_bytes(fields) + seq![separator()] + messages_bytes(fields) + seq![separator()]
        + be_bytes(temperature_or_default(fields)) + seq![separator()] + be_bytes(
        max_tokens_or_default(fields),
    )
}

/// The lowercase hexadecimal digit of `v` (below 16).
pub open spec fn hex_digit(v: u8) -> char {
    if v < 10 {
        (48 + v) as char
    } else {
        (87 + v) as char
    }
}

/// Lowercase hexadecimal text of `bytes`, two digits per byte, high nibble first.
pub open spec fn hex_lower(bytes: Seq<u8>) -> Seq<char>
    decreases bytes.len(),
{
    if bytes.len() == 0 {
        Seq::empty()
    } else {
        seq![hex_digit(bytes[0] >> 4u8), hex_digit(bytes[0] & 15u8)] + hex_lower(bytes.drop_first())
    }
}

/// The cache key of a request with these fields.
pub open spec fn cache_key_spec(fields: CacheKeyFields) -> Seq<char> {
    hex_lower(sha256(cache_key_preimage(fields)))
}

/// SHA-256 of `data`, through `sha2::Sha256::digest`.
/// Claims that the result is the 32-byte digest that `sha256` names.
#[verifier::external_body]
fn sha256_digest(data: &[u8]) -> (digest: Vec<u8>)
    ensures
        digest@ == sha256(data@),
        digest@.len() == 32,
{
    Sha256::digest(data).to_vec()
}

/// Lowercase hex text of `bytes`, through `hex::encode`.
/// Claims that the result has two lowercase digits per byte, high nibble first.
#[verifier::external_body]
fn hex_encode(bytes: &[u8]) -> (text: String)
    ensures
        text@ == hex_lower(bytes@),
{
    hex::encode(bytes)
}

/// Appends `bytes` to `out`.
fn append_bytes(out: &mut Vec<u8>, bytes: &[u8])
    ensures
        final(out)@ == old(out)@ + bytes@,
{
    let n = bytes.len();
    let mut i: usize = 0;
    while i < n
        invariant
            n == bytes@.len(),
            i <= n,
            out@ == old(out)@ + bytes@.take(i as int),
        decreases n - i,
    {
        out.push(bytes[i]);
        i += 1;
        proof {
            assert(out@ =~= old(out)@ + bytes@.take(i as int));
        }
    }
    proof {
        assert(bytes@.take(n as int) =~= bytes@);
    }
}

/// The eight bytes of `x`, most significant first.
pub fn u64_be_bytes(x: u64) -> (b: Vec<u8>)
    ensures
        b@ == be_bytes(x),
{
    let mut b: Vec<u8> = Vec::new();
    b.push((x >> 56u64) as u8);
    b.push((x >> 48u64) as u8);
    b.push((x >> 40u64) as u8);
    b.push((x >> 32u64) as u8);
    b.push((x >> 24u64) as u8);
    b.push((x >> 16u64) as u8);
    b.push((x >> 8u64) as u8);
    b.push(x as u8);
    proof {
        assert(b@ =~= be_bytes(x));
    }
    b
}

/// The bytes that are hashed into the cache key of a request with these fields.
pub fn cache_key_preimage_bytes(fields: &CacheKeyFields) -> (bytes: Vec<u8>)
    ensures
        bytes@ == cache_key_preimage(*fields),
{
    let mut out: Vec<u8> = Vec::new();
    match &fields.model {
        Some(m) => append_bytes(&mut out, m.as_str().as_bytes()),
        None => {
            let d: Vec<u8> = vec![100u8, 101u8, 102u8, 97u8, 117u8, 108u8, 116u8];
            append_bytes(&mut out, d.as_slice());
        },
    }
    out.push(124u8);
    match &fields.messages_json {
        Some(b) => append_bytes(&mut out, b.as_slice()),
        None => {},
    }
    out.push(124u8);
    let t = match fields.temperature_bits {
        Some(t) => t,
        None => DEFAULT_TEMPERATURE_BITS,
    };
    let tb = u64_be_bytes(t);
    append_bytes(&mut out, tb.as_slice());
    out.push(124u8);
    let m = match fields.max_tokens {
        Some(m) => m,
        None => DEFAULT_MAX_TOKENS,
    };
    let mb = u64_be_bytes(m);
    append_bytes(&mut out, mb.as_slice());
    proof {
        assert(out@ =~= cache_key_preimage(*fields));
    }
    out
}

/// The cache key text of a SHA-256 digest: its lowercase hex encoding.
pub fn key_from_digest(digest: &[u8]) -> (key: String)
    ensures
        key@ == hex_lower(digest@),
{
    hex_encode(digest)
}

/// The cache key of a chat completion request: lowercase hex of the SHA-256
/// of its model, messages, temperature and token budget.
pub fn generate_cache_key(fields: &CacheKeyFields) -> (key: String)
    ensures
        key@ == cache_key_spec(*fields),
        key@.len() == 64,
{
    let pre = cache_key_preimage_bytes(fields);
    let digest = sha256_digest(pre.as_slice());
    proof {
        lemma_hex_len(digest@);
    }
    key_from_digest(digest.as_slice())
}

/// Hex text has two digits per byte.
pub proof fn lemma_hex_len(bytes: Seq<u8>)
    ensures
        hex_lower(bytes).len() == 2 * bytes.len(),
    decreases bytes.len(),
{
    if bytes.len() > 0 {
        lemma_hex_len(bytes.drop_first());
    }
}

proof fn lemma_be_bytes_injective(x: u64, y: u64)
    requires
        be_bytes(x) == be_bytes(y),
    ensures
        x == y,
{
    let bx = be_bytes(x);
    let by = be_bytes(y);
    assert(bx[0] == by[0] && bx[1] == by[1] && bx[2] == by[2] && bx[3] == by[3]);
    assert(bx[4] == by[4] && bx[5] == by[5] && bx[6] == by[6] && bx[7] == by[7]);
    assert(x == y) by (bit_vector)
        requires
            (x >> 56u64) as u8 == (y >> 56u64) as u8,
            (x >> 48u64) as u8 == (y >> 48u64) as u8,
            (x >> 40u64) as u8 == (y >> 40u64) as u8,
            (x >> 32u64) as u8 == (y >> 32u64) as u8,
            (x >> 24u64) as u8 == (y >> 24u64) as u8,
            (x >> 16u64) as u8 == (y >> 16u64) as u8,
            (x >> 8u64) as u8 == (y >> 8u64) as u8,
            x as u8 == y as u8,
    ;
}

/// The hashed text fixes the temperature and the token budget: requests
/// that differ in either (after defaults) are hashed from different bytes,
/// so a reply cached for one is never keyed for the other unless SHA-256
/// collides.
pub proof fn lemma_preimage_separates_sampling(a: CacheKeyFields, b: CacheKeyFields)
    requires
        cache_key_preimage(a) == cache_key_preimage(b),
    ensures
        temperature_or_default(a) == temperature_or_default(b),
        max_tokens_or_default(a) == max_tokens_or_default(b),
{
    let pa = cache_key_preimage(a);
    let pb = cache_key_preimage(b);
    let n = pa.len();
    assert(pa.subrange(n - 8, n as int) =~= be_bytes(max_tokens_or_default(a)));
    assert(pb.subrange(n - 8, n as int) =~= be_bytes(max_tokens_or_default(b)));
    lemma_be_bytes_injective(max_tokens_or_default(a), max_tokens_or_default(b));
    assert(pa.subrange(n - 17, n - 9) =~= be_bytes(temperature_or_default(a)));
    assert(pb.subrange(n - 17, n - 9) =~= be_bytes(temperature_or_default(b)));
    lemma_be_bytes_injective(temperature_or_default(a), temperature_or_default(b));
}

/// Requests with the same key fields get the same key.
pub proof fn lemma_cache_key_deterministic(a: CacheKeyFields, b: CacheKeyFields)
    requires
        model_bytes(a) == model_bytes(b),
        messages_bytes(a) == messages_bytes(b),
        temperature_or_default(a) == temperature_or_default(b),
        max_tokens_or_default(a) == max_tokens_or_default(b),
    ensures
        cache_key_spec(a) == cache_key_spec(b),
{
    assert(cache_key_preimage(a) =~= cache_key_preimage(b));
}

/// The hashed text determines every key field: when neither model name
/// holds the separator byte `|`, requests hashed from the same bytes agree
/// in model bytes, messages bytes, temperature and token budget (after
/// defaults). So requests that differ in any of them never share a cache
/// entry unless SHA-256 collides.
pub proof fn lemma_preimage_injective(a: CacheKeyFields, b: CacheKeyFields)
    requires
        cache_key_preimage(a) == cache_key_preimage(b),
        !model_bytes(a).contains(separator()),
        !model_bytes(b).contains(separator()),
    ensures
        model_bytes(a) == model_bytes(b),
        messages_bytes(a) == messages_bytes(b),
        temperature_or_default(a) == temperature_or_default(b),
        max_tokens_or_default(a) == max_tokens_or_default(b),
{
    let p = cache_key_preimage(a);
    let ma = model_bytes(a);
    let mb = model_bytes(b);
    let i = ma.len() as int;
    let j = mb.len() as int;
    assert(p[i] == separator());
    assert(cache_key_preimage(b)[j] == separator());
    if i < j {
        assert(p[i] == mb[i]);
        assert(mb.contains(mb[i]));
    } else if j < i {
        assert(p[j] == ma[j]);
        assert(ma.contains(ma[j]));
    }
    assert(i == j);
    assert(p.subrange(0, i) =~= ma);
    assert(cache_key_preimage(b).subrange(0, j) =~= mb);
    let n = p.len() as int;
    assert(p.subrange(i + 1, n - 18) =~= messages_bytes(a));
    assert(cache_key_preimage(b).subrange(j + 1, n - 18) =~= messages_bytes(b));
    lemma_preimage_separates_sampling(a, b);
}

/// Scanner state over JSON text: inside a string literal, and right after
/// a backslash inside one.
pub struct JsonScan {
    pub in_string: bool,
    pub escaped: bool,
}

/// One byte of the scan; `None` when a `|` or a backslash stands outside
/// every string literal.
pub open spec fn json_scan_step(st: JsonScan, b: u8) -> Option<JsonScan> {
    if !st.in_string {
        if b == separator() || b == 92u8 {
            None
        } else if b == 34u8 {
            Some(JsonScan { in_string: true, escaped: false })
        } else {
            Some(JsonScan { in_string: false, escaped: false })
        }
    } else if st.escaped {
        Some(JsonScan { in_string: true, escaped: false })
    } else if b == 92u8 {
        Some(JsonScan { in_string: true, escaped: true })
    } else if b == 34u8 {
        Some(JsonScan { in_string: false, escaped: false })
    } else {
        Some(JsonScan { in_string: true, escaped: false })
    }
}

/// The scan of `bytes` from state `st`.
pub open spec fn json_scan(bytes: Seq<u8>, st: JsonScan) -> Option<JsonScan>
    decreases bytes.len(),
{
    if bytes.len() == 0 {
        Some(st)
    } else {
        match json_scan_step(st, bytes[0]) {
            Some(next) => json_scan(bytes.drop_first(), next),
            None => None,
        }
    }
}

/// Bytes framed as compact JSON text is (what `serde_json::to_vec` writes):
/// `|` and backslashes stand only inside string literals, and every string
/// literal is closed.
pub open spec fn json_framed(bytes: Seq<u8>) -> bool {
    json_scan(bytes, JsonScan { in_string: false, escaped: false }) == Some(
        JsonScan { in_string: false, escaped: false },
    )
}

proof fn lemma_json_scan_concat(a: Seq<u8>, b: Seq<u8>, st: JsonScan)
    ensures
        json_scan(a + b, st) == match json_scan(a, st) {
            Some(mid) => json_scan(b, mid),
            None => None,
        },
    decreases a.len(),
{
    if a.len() == 0 {
        assert(a + b =~= b);
    } else {
        assert((a + b).drop_first() =~= a.drop_first() + b);
        assert((a + b)[0] == a[0]);
        match json_scan_step(st, a[0]) {
            Some(next) => lemma_json_scan_concat(a.drop_first(), b, next),
            None => {},
        }
    }
}

/// The same bytes cannot be scanned without fault both from inside and
/// from outside a string literal and end outside one both times.
proof fn lemma_json_scan_parity(bytes: Seq<u8>, x: bool)
    ensures
        !(json_scan(bytes, JsonScan { in_string: x, escaped: false }) matches Some(s1)
            && json_scan(bytes, JsonScan { in_string: !x, escaped: false }) matches Some(s2)
            && !s1.in_string && !s2.in_string),
    decreases bytes.len(),
{
    if bytes.len() > 0 {
        let b = bytes[0];
        if b == 34u8 {
            lemma_json_scan_parity(bytes.drop_first(), !x);
        } else if b != separator() && b != 92u8 {
            lemma_json_scan_parity(bytes.drop_first(), x);
        }
    }
}

proof fn lemma_longer_model_impossible(a: CacheKeyFields, b: CacheKeyFields)
    requires
        cache_key_preimage(a) == cache_key_preimage(b),
        json_framed(messages_bytes(a)),
        json_framed(messages_bytes(b)),
    ensures
        !(model_bytes(a).len() < model_bytes(b).len()),
{
    let p = cache_key_preimage(a);
    let n = p.len() as int;
    let i = model_bytes(a).len() as int;
    let j = model_bytes(b).len() as int;
    if i < j {
        let mb = model_bytes(b);
        assert(p[i] == separator());
        assert(p[i] == mb[i]);
        let y = mb.subrange(i + 1, j);
        let msa = messages_bytes(a);
        let msb = messages_bytes(b);
        assert(p.subrange(i + 1, n - 18) =~= msa);
        assert(p.subrange(j + 1, n - 18) =~= msb);
        assert(msa =~= y + (seq![separator()] + msb));
        let clean = JsonScan { in_string: false, escaped: false };
        lemma_json_scan_concat(y, seq![separator()] + msb, clean);
        match json_scan(y, clean) {
            Some(mid) => {
                lemma_json_scan_concat(seq![separator()], msb, mid);
                assert(seq![separator()].drop_first() =~= Seq::<u8>::empty());
                assert(mid.in_string);
                let inside = JsonScan { in_string: true, escaped: false };
                assert(seq![separator()][0] == separator());
                assert(json_scan_step(mid, separator()) == Some(inside));
                assert(json_scan(Seq::<u8>::empty(), inside) == Some(inside));
                assert(json_scan(seq![separator()], mid) == Some(inside));
                lemma_json_scan_parity(msb, true);
            },
            None => {},
        }
    }
}

/// The hashed text determines every key field of requests whose messages
/// are JSON text: whatever the model names hold, requests hashed from the
/// same bytes agree in model bytes, messages bytes, temperature and token
/// budget (after defaults). So requests that differ in any of them never
/// share a cache entry unless SHA-256 collides.
pub proof fn lemma_preimage_injective_for_json(a: CacheKeyFields, b: CacheKeyFields)
    requires
        cache_key_preimage(a) == cache_key_preimage(b),
        json_framed(messages_bytes(a)),
        json_framed(messages_bytes(b)),
    ensures
        model_bytes(a) == model_bytes(b),
        messages_bytes(a) == messages_bytes(b),
        temperature_or_default(a) == temperature_or_default(b),
        max_tokens_or_default(a) == max_tokens_or_default(b),
{
    lemma_longer_model_impossible(a, b);
    lemma_longer_model_impossible(b, a);
    let p = cache_key_preimage(a);
    let i = model_bytes(a).len() as int;
    let n = p.len() as int;
    assert(p.subrange(0, i) =~= model_bytes(a));
    assert(cache_key_preimage(b).subrange(0, i) =~= model_bytes(b));
    assert(p.subrange(i + 1, n - 18) =~= messages_bytes(a));
    assert(cache_key_preimage(b).subrange(i + 1, n - 18) =~= messages_bytes(b));
    lemma_preimage_separates_sampling(a, b);
}

/// The number that `bytes` denote read big-endian, most significant first.
pub open spec fn be_value(bytes: Seq<u8>) -> nat
    decreases bytes.len(),
{
    if bytes.len() == 0 {
        0
    } else {
        be_value(bytes.drop_last()) * 256 + bytes.last() as nat
    }
}

proof fn lemma_be_value_of_be_bytes(x: u64)
    ensures
        be_value(be_bytes(x)) == x,
{
    let b = be_bytes(x);
    reveal_with_fuel(be_value, 9);
    assert(b.drop_last().drop_last().drop_last().drop_last().drop_last().drop_last().drop_last().drop_last()
        =~= Seq::<u8>::empty());
    let b0 = (x >> 56u64) as u8;
    let b1 = (x >> 48u64) as u8;
    let b2 = (x >> 40u64) as u8;
    let b3 = (x >> 32u64) as u8;
    let b4 = (x >> 24u64) as u8;
    let b5 = (x >> 16u64) as u8;
    let b6 = (x >> 8u64) as u8;
    let b7 = x as u8;
    assert(x as int == b0 as int * 0x100000000000000 + b1 as int * 0x1000000000000 + b2 as int
        * 0x10000000000 + b3 as int * 0x100000000 + b4 as int * 0x1000000 + b5 as int * 0x10000
        + b6 as int * 0x100 + b7 as int) by (bit_vector)
        requires
            b0 == (x >> 56u64) as u8,
            b1 == (x >> 48u64) as u8,
            b2 == (x >> 40u64) as u8,
            b3 == (x >> 32u64) as u8,
            b4 == (x >> 24u64) as u8,
            b5 == (x >> 16u64) as u8,
            b6 == (x >> 8u64) as u8,
            b7 == x as u8,
    ;
}

/// The hashed text holds every field whole and in place: the model name's
/// UTF-8 bytes (or `default`), `|`, the complete messages JSON, `|`, the
/// 8 bytes whose big-endian value is the temperature's bit pattern (that
/// of `1.0` when absent), `|`, and the 8 bytes whose big-endian value is
/// the token budget (2048 when absent).
pub proof fn lemma_preimage_layout(f: CacheKeyFields)
    ensures
        ({
            let p = cache_key_preimage(f);
            let m = match f.model {
                Some(name) => encode_utf8(name@),
                None => seq![100u8, 101u8, 102u8, 97u8, 117u8, 108u8, 116u8],
            };
            let msgs = match f.messages_json {
                Some(b) => b@,
                None => Seq::<u8>::empty(),
            };
            let i = m.len() as int;
            let j = i + 1 + msgs.len();
            &&& p.len() == j + 18
            &&& p.subrange(0, i) == m
            &&& p[i] == 124u8
            &&& p.subrange(i + 1, j) == msgs
            &&& p[j] == 124u8
            &&& be_value(p.subrange(j + 1, j + 9)) == (match f.temperature_bits {
                Some(t) => t,
                None => 0x3FF0_0000_0000_0000u64,
            })
            &&& p[j + 9] == 124u8
            &&& be_value(p.subrange(j + 10, j + 18)) == (match f.max_tokens {
                Some(t) => t,
                None => 2048u64,
            })
        }),
{
    let p = cache_key_preimage(f);
    let i = model_bytes(f).len() as int;
    let j = i + 1 + messages_bytes(f).len();
    assert(p.subrange(0, i) =~= model_bytes(f));
    assert(p.subrange(i + 1, j) =~= messages_bytes(f));
    assert(p.subrange(j + 1, j + 9) =~= be_bytes(temperature_or_default(f)));
    assert(p.subrange(j + 10, j + 18) =~= be_bytes(max_tokens_or_default(f)));
    lemma_be_value_of_be_bytes(temperature_or_default(f));
    lemma_be_value_of_be_bytes(max_tokens_or_default(f));
}

/// Requests whose messages are JSON text and that hash the same bytes carry
/// the same messages JSON, byte for byte: no part of the messages is left
/// out of the key.
pub proof fn lemma_json_messages_fully_hashed(a: CacheKeyFields, b: CacheKeyFields)
    requires
        cache_key_preimage(a) == cache_key_preimage(b),
        a.messages_json is Some,
        b.messages_json is Some,
        json_framed(a.messages_json->0@),
        json_framed(b.messages_json->0@),
    ensures
        a.messages_json->0@ == b.messages_json->0@,
        (match a.model {
            Some(m) => encode_utf8(m@),
            None => default_model_bytes(),
        }) == (match b.model {
            Some(m) => encode_utf8(m@),
            None => default_model_bytes(),
        }),
{
    lemma_preimage_layout(a);
    lemma_preimage_layout(b);
    lemma_preimage_injective_for_json(a, b);
}

} // verus!
