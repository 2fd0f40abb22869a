//! Encryption of strings: hexadecimal text, a salted XOR scheme for development and
//! AES-256-GCM for production.
use vstd::prelude::*;
use vstd::utf8::{encode_utf8, decode_utf8, valid_utf8, is_ascii_chars};
use vstd::wrapping::u8_specs;
use aes_gcm::aead::{Aead, KeyInit};
use crate::text;
use crate::clock;

verus! {

// ───────────────────────── hexadecimal ─────────────────────────

/// The lowercase hexadecimal digit of `n < 16`.
pub open spec fn hex_digit(n: nat) -> char {
    if n < 10 {
        ((48 + n) as u32) as char
    } else {
        ((87 + n) as u32) as char
    }
}

/// Two lowercase hexadecimal digits per byte, high half first.
pub open spec fn hex_encode(b: Seq<u8>) -> Seq<char>
    decreases b.len(),
{
    if b.len() == 0 {
        Seq::empty()
    } else {
        hex_encode(b.drop_last()) + seq![
            hex_digit((b.last() / 16) as nat),
            hex_digit((b.last() % 16) as nat),
        ]
    }
}

/// The value of a hexadecimal digit given as a byte, in either case.
pub open spec fn hex_value(c: u8) -> Option<u8> {
    if 48 <= c <= 57 {
        Some((c - 48) as u8)
    } else if 97 <= c <= 102 {
        Some((c - 87) as u8)
    } else if 65 <= c <= 70 {
        Some((c - 55) as u8)
    } else {
        None
    }
}

/// The position of the first byte at or after `i` that is not a hexadecimal digit.
pub open spec fn first_non_hex(b: Seq<u8>, i: int) -> Option<int>
    decreases b.len() - i,
{
    if i < 0 || i >= b.len() {
        None
    } else if hex_value(b[i]) is None {
        Some(i)
    } else {
        first_non_hex(b, i + 1)
    }
}

/// The bytes that pairs of hexadecimal digits denote.
pub open spec fn hex_pairs(b: Seq<u8>) -> Seq<u8>
    decreases b.len(),
{
    if b.len() < 2 {
        Seq::empty()
    } else {
        let n = b.len();
        hex_pairs(b.take(n - 2)) + seq![
            (hex_value(b[n - 2]).unwrap() * 16 + hex_value(b[n - 1]).unwrap()) as u8,
        ]
    }
}

/// What decoding hexadecimal bytes gives: an odd count is refused, then the first
/// byte that is no digit, shown as the character of that code.
pub open spec fn hex_decode_bytes(b: Seq<u8>) -> Result<Seq<u8>, Seq<char>> {
    if b.len() % 2 != 0 {
        Err("Odd hex length"@)
    } else {
        match first_non_hex(b, 0) {
            Some(i) => Err("Invalid hex char: "@ + seq![(b[i] as u32) as char]),
            None => Ok(hex_pairs(b)),
        }
    }
}

/// What decoding a hexadecimal text gives: its bytes, trimmed, decoded.
pub open spec fn hex_decode(s: Seq<char>) -> Result<Seq<u8>, Seq<char>> {
    hex_decode_bytes(encode_utf8(text::trim(s)))
}

pub open spec fn result_view(r: Result<Vec<u8>, String>) -> Result<Seq<u8>, Seq<char>> {
    match r {
        Ok(v) => Ok(v@),
        Err(e) => Err(e@),
    }
}

fn digit_of(n: u8) -> (c: char)
    requires
        n < 16,
    ensures
        c == hex_digit(n as nat),
{
    if n < 10 {
        text::char_from_ascii((48 + n) as u32)
    } else {
        text::char_from_ascii((87 + n) as u32)
    }
}

/// Lowercase hexadecimal text of bytes.
pub fn encode(bytes: &[u8]) -> (r: String)
    ensures
        r@ == hex_encode(bytes@),
{
    let mut out: Vec<char> = Vec::new();
    let mut i: usize = 0;
    proof {
        assert(bytes@.take(0) =~= Seq::<u8>::empty());
    }
    while i < bytes.len()
        invariant
            i <= bytes@.len(),
            out@ == hex_encode(bytes@.take(i as int)),
        decreases bytes@.len() - i,
    {
        let b = bytes[i];
        let hi = digit_of(b / 16);
        let lo = digit_of(b % 16);
        proof {
            assert(bytes@.take(i + 1).drop_last() =~= bytes@.take(i as int));
            assert(bytes@.take(i + 1).last() == b);
        }
        out.push(hi);
        out.push(lo);
        i += 1;
    }
    proof {
        assert(bytes@.take(i as int) =~= bytes@);
    }
    text::string_of(out.as_slice())
}

fn from_hex(c: u8) -> (r: Option<u8>)
    ensures
        r == hex_value(c),
{
    if 48 <= c && c <= 57 {
        Some(c - 48)
    } else if 97 <= c && c <= 102 {
        Some(c - 87)
    } else if 65 <= c && c <= 70 {
        Some(c - 55)
    } else {
        None
    }
}

/// The bytes of a trimmed hexadecimal text; refuses an odd number of bytes and a byte
/// that is no hexadecimal digit.
pub fn decode(s: &str) -> (r: Result<Vec<u8>, String>)
    ensures
        result_view(r) == hex_decode(s@),
{
    let cs = text::chars_of(s);
    let t = text::trim_exec(cs.as_slice());
    let ts = text::string_of(t.as_slice());
    let b = ts.as_str().as_bytes();
    let ghost bs = encode_utf8(text::trim(s@));
    assert(b@ == bs);
    let n = b.len();
    if n % 2 != 0 {
        return Err(text::owned("Odd hex length"));
    }
    let mut k: usize = 0;
    while k < n
        invariant
            k <= n,
            n % 2 == 0,
            n == b@.len(),
            b@ == bs,
            bs == encode_utf8(text::trim(s@)),
            first_non_hex(bs, 0) == first_non_hex(bs, k as int),
        decreases n - k,
    {
        match from_hex(b[k]) {
            Some(_) => {},
            None => {
                let shown = text::cat("Invalid hex char: ", "");
                let mut msg = shown;
                text::push_char(&mut msg, b[k] as char);
                proof {
                    reveal_strlit("");
                    assert(msg@ =~= "Invalid hex char: "@ + seq![(b[k as int] as u32) as char]);
                    assert(first_non_hex(bs, k as int) == Some(k as int));
                    assert(bs.len() % 2 == 0);
                    assert(hex_decode_bytes(bs) == Err::<Seq<u8>, Seq<char>>(msg@));
                }
                return Err(msg);
            },
        }
        k += 1;
    }
    let mut out: Vec<u8> = Vec::new();
    let mut j: usize = 0;
    proof {
        assert(bs.take(0) =~= Seq::<u8>::empty());
    }
    while j < n
        invariant
            j <= n,
            j % 2 == 0,
            n % 2 == 0,
            n == b@.len(),
            b@ == bs,
            bs == encode_utf8(text::trim(s@)),
            first_non_hex(bs, 0) is None,
            out@ == hex_pairs(bs.take(j as int)),
        decreases n - j,
    {
        proof {
            lemma_no_bad_at(bs, 0, j as int);
            lemma_no_bad_at(bs, 0, j + 1);
        }
        let hi = from_hex(b[j]).unwrap();
        let lo = from_hex(b[j + 1]).unwrap();
        proof {
            assert(bs.take(j + 2).take(j as int) =~= bs.take(j as int));
        }
        out.push(hi * 16 + lo);
        j += 2;
    }
    proof {
        assert(bs.take(n as int) =~= bs);
    }
    Ok(out)
}

proof fn lemma_no_bad_at(b: Seq<u8>, from: int, i: int)
    requires
        0 <= from <= i < b.len(),
        first_non_hex(b, from) is None,
    ensures
        hex_value(b[i]) is Some,
    decreases i - from,
{
    if from < i {
        lemma_no_bad_at(b, from + 1, i);
    }
}

// ───────────────────────── the hexadecimal round trip ─────────────────────────

proof fn lemma_hex_encode_props(b: Seq<u8>)
    ensures
        hex_encode(b).len() == 2 * b.len(),
        forall|i: int|
            0 <= i < b.len() ==> (#[trigger] hex_encode(b)[2 * i]) == hex_digit((b[i] / 16) as nat)
                && hex_encode(b)[2 * i + 1] == hex_digit((b[i] % 16) as nat),
    decreases b.len(),
{
    if b.len() > 0 {
        lemma_hex_encode_props(b.drop_last());
        let p = hex_encode(b.drop_last());
        assert forall|i: int| 0 <= i < b.len() implies (#[trigger] hex_encode(b)[2 * i])
            == hex_digit((b[i] / 16) as nat) && hex_encode(b)[2 * i + 1] == hex_digit(
            (b[i] % 16) as nat,
        ) by {
            if i < b.len() - 1 {
                assert(hex_encode(b)[2 * i] == p[2 * i]);
                assert(hex_encode(b)[2 * i + 1] == p[2 * i + 1]);
            }
        }
    }
}

proof fn lemma_hex_digit_value(n: nat)
    requires
        n < 16,
    ensures
        '\0' <= hex_digit(n) <= '\u{7f}',
        !text::is_ws(hex_digit(n)),
        hex_value(hex_digit(n) as u8) == Some(n as u8),
{
}

proof fn lemma_trim_nonspace(s: Seq<char>)
    requires
        forall|i: int| 0 <= i < s.len() ==> !text::is_ws(#[trigger] s[i]),
    ensures
        text::trim(s) == s,
{
    assert(text::trim_start(s) == s);
    assert(text::trim_end(s) == s);
}

proof fn lemma_ascii_digits_bytes(s: Seq<char>, b: Seq<u8>)
    requires
        s == hex_encode(b),
    ensures
        is_ascii_chars(s),
        encode_utf8(s).len() == s.len(),
        forall|i: int| 0 <= i < s.len() ==> encode_utf8(s)[i] == #[trigger] s[i] as u8,
        forall|i: int| 0 <= i < s.len() ==> !text::is_ws(#[trigger] s[i]),
{
    lemma_hex_encode_props(b);
    assert forall|i: int| 0 <= i < s.len() implies '\0' <= #[trigger] s[i] <= '\u{7f}'
        && !text::is_ws(s[i]) by {
        let k = i / 2;
        assert(i == 2 * k || i == 2 * k + 1);
        lemma_hex_digit_value((b[k] / 16) as nat);
        lemma_hex_digit_value((b[k] % 16) as nat);
        assert(hex_encode(b)[2 * k] == hex_digit((b[k] / 16) as nat));
        if i == 2 * k {
            assert(s[2 * k] == hex_digit((b[k] / 16) as nat));
        } else {
            assert(s[2 * k + 1] == hex_digit((b[k] % 16) as nat));
        }
    }
    vstd::utf8::is_ascii_chars_encode_utf8(s);
}

proof fn lemma_pairs_of_encoding(b: Seq<u8>, e: Seq<u8>)
    requires
        e.len() == 2 * b.len(),
        forall|i: int|
            0 <= i < b.len() ==> e[2 * i] == hex_digit((b[i] / 16) as nat) as u8 && e[2 * i + 1]
                == hex_digit((b[i] % 16) as nat) as u8,
    ensures
        hex_pairs(e) == b,
    decreases b.len(),
{
    if b.len() > 0 {
        let n = b.len() - 1;
        let e2 = e.take(2 * n);
        assert forall|i: int| 0 <= i < n implies e2[2 * i] == hex_digit((b.drop_last()[i] / 16) as nat)
            as u8 && e2[2 * i + 1] == hex_digit((b.drop_last()[i] % 16) as nat) as u8 by {
            assert(e2[2 * i] == e[2 * i]);
        }
        lemma_pairs_of_encoding(b.drop_last(), e2);
        lemma_hex_digit_value((b[n] / 16) as nat);
        lemma_hex_digit_value((b[n] % 16) as nat);
        assert(e[2 * n] == hex_digit((b[n] / 16) as nat) as u8);
        assert(hex_value(e[2 * n]) == Some((b[n] / 16) as u8));
        assert(hex_value(e[2 * n + 1]) == Some((b[n] % 16) as u8));
        assert(((b[n] / 16) as u8) * 16 + ((b[n] % 16) as u8) == b[n]);
        assert(hex_pairs(e) =~= b);
    } else {
        assert(hex_pairs(e) =~= b);
    }
}

proof fn lemma_all_hex(e: Seq<u8>)
    requires
        e.len() % 2 == 0,
        forall|i: int| 0 <= i < e.len() ==> hex_value(#[trigger] e[i]) is Some,
    ensures
        first_non_hex(e, 0) is None,
{
    lemma_all_hex_from(e, 0);
}

proof fn lemma_all_hex_from(e: Seq<u8>, i: int)
    requires
        0 <= i,
        forall|j: int| 0 <= j < e.len() ==> hex_value(#[trigger] e[j]) is Some,
    ensures
        first_non_hex(e, i) is None,
    decreases e.len() - i,
{
    if i < e.len() {
        lemma_all_hex_from(e, i + 1);
    }
}

proof fn lemma_first_non_hex_none(b: Seq<u8>, i: int)
    requires
        0 <= i <= b.len(),
    ensures
        (first_non_hex(b, i) is None) <==> (forall|j: int| i <= j < b.len() ==> hex_value(#[trigger] b[j]) is Some),
    decreases b.len() - i,
{
    if i < b.len() {
        lemma_first_non_hex_none(b, i + 1);
        if hex_value(b[i]) is Some {
            assert forall|j: int| i <= j < b.len() && (forall|k: int| i + 1 <= k < b.len() ==> hex_value(#[trigger] b[k]) is Some)
                implies hex_value(#[trigger] b[j]) is Some by {
                if j > i {
                    assert(hex_value(b[j]) is Some);
                }
            }
        }
    }
}

/// Decoding a text fails exactly where its trimmed bytes are odd in number or one of
/// them is no hexadecimal digit.
pub proof fn lemma_hex_decode_fails(s: Seq<char>)
    ensures
        hex_decode(s) is Err <==> (encode_utf8(text::trim(s)).len() % 2 == 1 || exists|j: int|
            0 <= j < encode_utf8(text::trim(s)).len() && hex_value(
                #[trigger] encode_utf8(text::trim(s))[j],
            ) is None),
{
    lemma_first_non_hex_none(encode_utf8(text::trim(s)), 0);
}

/// Decoding the hexadecimal text of bytes gives those bytes back.
pub proof fn lemma_hex_round_trip(b: Seq<u8>)
    ensures
        hex_decode(hex_encode(b)) == Ok::<Seq<u8>, Seq<char>>(b),
{
    let s = hex_encode(b);
    lemma_hex_encode_props(b);
    lemma_ascii_digits_bytes(s, b);
    lemma_trim_nonspace(s);
    let e = encode_utf8(s);
    assert forall|i: int| 0 <= i < b.len() implies e[2 * i] == hex_digit((b[i] / 16) as nat) as u8
        && e[2 * i + 1] == hex_digit((b[i] % 16) as nat) as u8 by {
        assert(s[2 * i] == hex_digit((b[i] / 16) as nat));
        assert(s[2 * i + 1] == hex_digit((b[i] % 16) as nat));
    }
    lemma_pairs_of_encoding(b, e);
    assert forall|i: int| 0 <= i < e.len() implies hex_value(#[trigger] e[i]) is Some by {
        let k = i / 2;
        lemma_hex_digit_value((b[k] / 16) as nat);
        lemma_hex_digit_value((b[k] % 16) as nat);
        if i == 2 * k {
            assert(e[2 * k] == hex_digit((b[k] / 16) as nat) as u8);
        } else {
            assert(e[2 * k + 1] == hex_digit((b[k] % 16) as nat) as u8);
        }
    }
    lemma_all_hex(e);
    assert(e.len() % 2 == 0);
}


// ───────────────────────── the encrypter interface ─────────────────────────

/// Encrypts strings into text and back.
pub trait Encrypter {
    /// The plaintexts this encrypter can encrypt without failing.
    spec fn accepts_plaintext(&self, plaintext: Seq<char>) -> bool;

    /// The texts this encrypter can try to decrypt without failing.
    spec fn accepts_ciphertext(&self, ciphertext: Seq<char>) -> bool;

    fn name(&self) -> &str;

    fn encrypt(&self, plaintext: &str) -> String
        requires
            self.accepts_plaintext(plaintext@),
    ;

    fn decrypt(&self, ciphertext: &str) -> Result<String, String>
        requires
            self.accepts_ciphertext(ciphertext@),
    ;

    fn keygen() -> String;
}

/// What `String::from_utf8` reports, as text, for bytes that are not UTF-8.
pub uninterp spec fn utf8_error_text(bytes: Seq<u8>) -> Seq<char>;

/// `String::from_utf8`: the string the bytes encode, or, for bytes that are not valid
/// UTF-8, the error's text (its wording is left to the name `utf8_error_text`).
#[verifier::external_body]
fn string_from_utf8(v: Vec<u8>) -> (r: Result<String, String>)
    ensures
        match r {
            Ok(s) => valid_utf8(v@) && s@ == decode_utf8(v@),
            Err(e) => !valid_utf8(v@) && e@ == utf8_error_text(v@),
        },
{
    String::from_utf8(v).map_err(|e| e.to_string())
}

/// The string that UTF-8 bytes encode, or `Invalid UTF-8: ` and the reason.
pub open spec fn utf8_text(bytes: Seq<u8>) -> Result<Seq<char>, Seq<char>> {
    if valid_utf8(bytes) {
        Ok(decode_utf8(bytes))
    } else {
        Err("Invalid UTF-8: "@ + utf8_error_text(bytes))
    }
}

pub open spec fn text_result_view(r: Result<String, String>) -> Result<Seq<char>, Seq<char>> {
    match r {
        Ok(s) => Ok(s@),
        Err(e) => Err(e@),
    }
}

fn utf8_string(v: Vec<u8>) -> (r: Result<String, String>)
    ensures
        text_result_view(r) == utf8_text(v@),
{
    match string_from_utf8(v) {
        Ok(s) => Ok(s),
        Err(e) => Err(text::cat("Invalid UTF-8: ", e.as_str())),
    }
}

proof fn lemma_utf8_round_trip(p: Seq<char>)
    ensures
        utf8_text(encode_utf8(p)) == Ok::<Seq<char>, Seq<char>>(p),
{
    vstd::utf8::encode_utf8_valid_utf8(p);
    vstd::utf8::encode_utf8_decode_utf8(p);
}

// ───────────────────────── the salted XOR scheme ─────────────────────────

/// Each byte XORed with the key's byte at the same position, the key repeated.
pub open spec fn xor_key(b: Seq<u8>, key: Seq<u8>) -> Seq<u8> {
    Seq::new(b.len(), |i: int| b[i] ^ key[i % (key.len() as int)])
}

pub open spec fn add_salt(b: Seq<u8>, salt: u8) -> Seq<u8> {
    Seq::new(b.len(), |i: int| u8_specs::wrapping_add(b[i], salt))
}

pub open spec fn sub_salt(b: Seq<u8>, salt: u8) -> Seq<u8> {
    Seq::new(b.len(), |i: int| u8_specs::wrapping_sub(b[i], salt))
}

/// The text of the salted XOR scheme: the salt, then each byte of the plaintext
/// XORed with the key and raised by the salt (wrapping), in hexadecimal.
pub open spec fn simple_sealed(key: Seq<u8>, plaintext: Seq<u8>, salt: u8) -> Seq<char> {
    hex_encode(seq![salt] + add_salt(xor_key(plaintext, key), salt))
}

/// What the salted XOR scheme decrypts a text to.
pub open spec fn simple_opened(key: Seq<u8>, ciphertext: Seq<char>) -> Result<Seq<char>, Seq<char>> {
    match hex_decode(ciphertext) {
        Err(e) => Err(e),
        Ok(d) => if d.len() == 0 {
            Err("Empty ciphertext"@)
        } else {
            utf8_text(xor_key(sub_salt(d.skip(1), d[0]), key))
        },
    }
}

/// A development encrypter: XOR with a key and a salt from the clock. Not secure.
#[derive(Debug)]
pub struct SimpleEncrypter {
    key: String,
}

impl SimpleEncrypter {
    /// The bytes of the key.
    pub closed spec fn key_bytes(&self) -> Seq<u8> {
        encode_utf8(self.key@)
    }

    pub fn new(key: &str) -> (r: SimpleEncrypter)
        ensures
            r.key_bytes() == encode_utf8(key@),
    {
        SimpleEncrypter { key: text::owned(key) }
    }

    /// Encrypts with the given salt.
    pub fn encrypt_with_salt(&self, plaintext: &str, salt: u8) -> (r: String)
        requires
            self.key_bytes().len() > 0 || encode_utf8(plaintext@).len() == 0,
        ensures
            r@ == simple_sealed(self.key_bytes(), encode_utf8(plaintext@), salt),
    {
        let key = self.key.as_str().as_bytes();
        let p = plaintext.as_bytes();
        let ghost kb = self.key_bytes();
        let ghost pb = encode_utf8(plaintext@);
        let ghost body = add_salt(xor_key(pb, kb), salt);
        let mut out: Vec<u8> = Vec::new();
        out.push(salt);
        let mut i: usize = 0;
        while i < p.len()
            invariant
                i <= p@.len(),
                p@ == pb,
                key@ == kb,
                kb.len() > 0 || pb.len() == 0,
                body == add_salt(xor_key(pb, kb), salt),
                out@ == seq![salt] + body.take(i as int),
            decreases p@.len() - i,
        {
            let x = p[i] ^ key[i % key.len()];
            let y = x.wrapping_add(salt);
            proof {
                assert(body[i as int] == y);
                assert(body.take(i + 1) =~= body.take(i as int).push(y));
            }
            out.push(y);
            i += 1;
        }
        proof {
            assert(body.take(i as int) =~= body);
        }
        encode(out.as_slice())
    }

    /// Decrypts a text of the salted XOR scheme.
    pub fn decrypt_text(&self, ciphertext: &str) -> (r: Result<String, String>)
        requires
            self.key_bytes().len() > 0 || match hex_decode(ciphertext@) {
                Ok(d) => d.len() <= 1,
                Err(_) => true,
            },
        ensures
            text_result_view(r) == simple_opened(self.key_bytes(), ciphertext@),
    {
        let decoded = match decode(ciphertext) {
            Ok(d) => d,
            Err(e) => {
                return Err(e);
            },
        };
        if decoded.len() == 0 {
            return Err(text::owned("Empty ciphertext"));
        }
        let salt = decoded[0];
        let key = self.key.as_str().as_bytes();
        let ghost kb = self.key_bytes();
        let ghost d = decoded@;
        let ghost plain = xor_key(sub_salt(d.skip(1), d[0]), kb);
        let mut out: Vec<u8> = Vec::new();
        let mut i: usize = 1;
        while i < decoded.len()
            invariant
                1 <= i <= d.len(),
                decoded@ == d,
                d[0] == salt,
                key@ == kb,
                kb.len() > 0 || d.len() <= 1,
                plain == xor_key(sub_salt(d.skip(1), d[0]), kb),
                out@ == plain.take(i - 1),
            decreases d.len() - i,
        {
            let y = decoded[i].wrapping_sub(salt) ^ key[(i - 1) % key.len()];
            proof {
                assert(plain[i - 1] == y);
                assert(plain.take(i as int) =~= plain.take(i - 1).push(y));
            }
            out.push(y);
            i += 1;
        }
        proof {
            assert(plain.take(d.len() - 1) =~= plain);
        }
        utf8_string(out)
    }

    /// Generates a key from a clock reading and a random number:
    /// `key_`, both in lowercase hexadecimal, separated by `_`.
    pub fn keygen_from(nanos: u128, random: u64) -> (r: String)
        ensures
            r@ == "key_"@ + lower_hex(nanos as nat) + "_"@ + lower_hex(random as nat),
    {
        let a = hex_number(nanos);
        let b = hex_number(random as u128);
        let first = text::cat3("key_", a.as_str(), "_");
        text::cat(first.as_str(), b.as_str())
    }
}

/// The key `keygen_from` makes of a clock reading and the scramble of a seed.
pub open spec fn simple_key(nanos: u128, seed: u128) -> Seq<char> {
    "key_"@ + lower_hex(nanos as nat) + "_"@ + lower_hex(scramble(seed) as nat)
}

/// A xorshift-multiply scramble of a seed's low 64 bits.
pub open spec fn scramble(seed: u128) -> u64 {
    let s0 = seed as u64;
    let s1 = s0 ^ (s0 >> 12u64);
    let s2 = s1 ^ (s1 << 25u64);
    let s3 = s2 ^ (s2 >> 27u64);
    vstd::wrapping::u64_specs::wrapping_mul(s3, 0x2545F4914F6CDD1Du64)
}

/// A pseudo-random number from a seed.
pub fn fast_rand_from(seed: u128) -> (r: u64)
    ensures
        r == scramble(seed),
{
    let mut state = seed as u64;
    state = state ^ (state >> 12u64);
    state = state ^ (state << 25u64);
    state = state ^ (state >> 27u64);
    state.wrapping_mul(0x2545F4914F6CDD1Du64)
}

/// The lowercase hexadecimal digits of `n`.
pub open spec fn lower_hex(n: nat) -> Seq<char>
    decreases n,
{
    if n < 16 {
        seq![hex_digit(n)]
    } else {
        lower_hex(n / 16) + seq![hex_digit(n % 16)]
    }
}

/// `format!("{:x}", n)`.
pub fn hex_number(n: u128) -> (r: String)
    ensures
        r@ == lower_hex(n as nat),
{
    let mut digits: Vec<char> = Vec::new();
    let mut m = n;
    while m >= 16
        invariant
            lower_hex(n as nat) == lower_hex(m as nat) + digits@.reverse(),
        decreases m,
    {
        let d = digit_of((m % 16) as u8);
        proof {
            assert(lower_hex(m as nat) == lower_hex((m / 16) as nat) + seq![hex_digit((m % 16) as nat)]);
            assert(digits@.push(d).reverse() =~= seq![d] + digits@.reverse());
        }
        digits.push(d);
        m = m / 16;
    }
    let d = digit_of(m as u8);
    digits.push(d);
    proof {
        assert(digits@.reverse() =~= seq![d] + digits@.drop_last().reverse());
    }
    let mut out: Vec<char> = Vec::new();
    let mut k: usize = digits.len();
    while k > 0
        invariant
            k <= digits@.len(),
            out@ == digits@.subrange(k as int, digits@.len() as int).reverse(),
        decreases k,
    {
        k -= 1;
        proof {
            assert(digits@.subrange(k as int, digits@.len() as int).reverse() =~= digits@.subrange(
                (k + 1) as int,
                digits@.len() as int,
            ).reverse().push(digits@[k as int]));
        }
        out.push(digits[k]);
    }
    proof {
        assert(digits@.subrange(0, digits@.len() as int) =~= digits@);
    }
    text::string_of(out.as_slice())
}

impl Encrypter for SimpleEncrypter {
    open spec fn accepts_plaintext(&self, plaintext: Seq<char>) -> bool {
        self.key_bytes().len() > 0 || encode_utf8(plaintext).len() == 0
    }

    open spec fn accepts_ciphertext(&self, ciphertext: Seq<char>) -> bool {
        self.key_bytes().len() > 0 || match hex_decode(ciphertext) {
            Ok(d) => d.len() <= 1,
            Err(_) => true,
        }
    }

    fn name(&self) -> (r: &str)
        ensures
            r@ == "simple"@,
    {
        "simple"
    }

    /// Encrypts with a salt taken from the clock.
    fn encrypt(&self, plaintext: &str) -> (r: String)
        ensures
            exists|salt: u8| r@ == simple_sealed(self.key_bytes(), encode_utf8(plaintext@), salt),
    {
        let salt = clock::subsecond_nanos() as u8;
        self.encrypt_with_salt(plaintext, salt)
    }

    fn decrypt(&self, ciphertext: &str) -> (r: Result<String, String>)
        ensures
            text_result_view(r) == simple_opened(self.key_bytes(), ciphertext@),
    {
        self.decrypt_text(ciphertext)
    }

    /// A key made of a clock reading and a number scrambled from another reading.
    fn keygen() -> (r: String)
        ensures
            exists|nanos: u128, seed: u128| r@ == #[trigger] simple_key(nanos, seed),
    {
        let nanos = clock::unix_nanos();
        let seed = clock::unix_nanos();
        let r = SimpleEncrypter::keygen_from(nanos, fast_rand_from(seed));
        proof {
            assert(r@ == simple_key(nanos, seed));
        }
        r
    }
}

/// Decrypting what the salted XOR scheme encrypted, with the same non-empty key,
/// gives the plaintext back, whatever the salt.
pub proof fn lemma_simple_round_trip(key: Seq<u8>, plaintext: Seq<char>, salt: u8)
    requires
        key.len() > 0,
    ensures
        simple_opened(key, simple_sealed(key, encode_utf8(plaintext), salt)) == Ok::<
            Seq<char>,
            Seq<char>,
        >(plaintext),
{
    let pb = encode_utf8(plaintext);
    let d = seq![salt] + add_salt(xor_key(pb, key), salt);
    lemma_hex_round_trip(d);
    assert(d.len() > 0);
    assert(d[0] == salt);
    let back = xor_key(sub_salt(d.skip(1), d[0]), key);
    assert forall|i: int| 0 <= i < pb.len() implies #[trigger] back[i] == pb[i] by {
        let k = key[i % (key.len() as int)];
        let x = pb[i];
        assert(d.skip(1)[i] == u8_specs::wrapping_add(x ^ k, salt));
        assert(u8_specs::wrapping_sub(u8_specs::wrapping_add(x ^ k, salt), salt) == x ^ k);
        assert((x ^ k) ^ k == x) by (bit_vector);
    }
    assert(back =~= pb);
    lemma_utf8_round_trip(plaintext);
}

/// With a non-empty key text, decrypting what the salted XOR scheme encrypted gives
/// the plaintext back, whatever the salt: `SimpleEncrypter::new(key)` has the key's
/// UTF-8 bytes, which are then not empty.
pub proof fn lemma_simple_text_round_trip(key: Seq<char>, plaintext: Seq<char>, salt: u8)
    requires
        key.len() > 0,
    ensures
        encode_utf8(key).len() > 0,
        simple_opened(encode_utf8(key), simple_sealed(encode_utf8(key), encode_utf8(plaintext), salt))
            == Ok::<Seq<char>, Seq<char>>(plaintext),
{
    assert(encode_utf8(key) == vstd::utf8::encode_scalar(key[0] as u32) + encode_utf8(key.drop_first()));
    assert(vstd::utf8::encode_scalar(key[0] as u32).len() > 0);
    lemma_simple_round_trip(encode_utf8(key), plaintext, salt);
}

// ───────────────────────── AES-256-GCM ─────────────────────────

/// The SHA-256 digest of some bytes.
pub uninterp spec fn sha256_digest(data: Seq<u8>) -> Seq<u8>;

/// `sha2::Sha256::digest`: the digest, which has 32 bytes.
#[verifier::external_body]
fn sha256(data: &[u8]) -> (r: Vec<u8>)
    ensures
        r@ == sha256_digest(data@),
        r@.len() == 32,
{
    <sha2::Sha256 as sha2::Digest>::digest(data).to_vec()
}

/// The hash of a file's contents: their SHA-256 digest in lowercase hexadecimal.
pub fn content_hash(content: &[u8]) -> (r: String)
    ensures
        r@ == hex_encode(sha256_digest(content@)),
{
    let d = sha256(content);
    encode(d.as_slice())
}

/// The AES-256-GCM encryption (ciphertext, then the 16-byte tag) of a plaintext.
pub uninterp spec fn aes_gcm_sealed(key: Seq<u8>, nonce: Seq<u8>, plaintext: Seq<u8>) -> Seq<u8>;

/// The AES-256-GCM decryption of a ciphertext and tag, or `None` where the tag does not match.
pub uninterp spec fn aes_gcm_opened(key: Seq<u8>, nonce: Seq<u8>, ciphertext: Seq<u8>) -> Option<
    Seq<u8>,
>;

/// The most plaintext bytes that AES-GCM encrypts.
pub open spec fn aes_gcm_max_plaintext() -> nat {
    0x10_0000_0000
}

/// `Aes256Gcm::encrypt` with a 32-byte key and a 12-byte nonce and no associated data.
/// It fails only for a plaintext over 2^36 bytes; its result is the ciphertext with the
/// tag appended, 16 bytes longer than the plaintext, which decryption with the same key
/// and nonce turns back into the plaintext.
#[verifier::external_body]
fn aes_gcm_encrypt(key: &[u8], nonce: &[u8], plaintext: &[u8]) -> (r: Option<Vec<u8>>)
    requires
        key@.len() == 32,
        nonce@.len() == 12,
    ensures
        plaintext@.len() <= aes_gcm_max_plaintext() <==> r is Some,
        r matches Some(c) ==> c@ == aes_gcm_sealed(key@, nonce@, plaintext@) && c@.len()
            == plaintext@.len() + 16 && aes_gcm_opened(key@, nonce@, c@) == Some(plaintext@),
{
    aes_gcm::Aes256Gcm::new(aes_gcm::Key::<aes_gcm::Aes256Gcm>::from_slice(key)).encrypt(
        aes_gcm::Nonce::from_slice(nonce),
        plaintext,
    ).ok()
}

/// `Aes256Gcm::decrypt` with a 32-byte key and a 12-byte nonce and no associated data.
#[verifier::external_body]
fn aes_gcm_decrypt(key: &[u8], nonce: &[u8], ciphertext: &[u8]) -> (r: Option<Vec<u8>>)
    requires
        key@.len() == 32,
        nonce@.len() == 12,
    ensures
        match r {
            Some(p) => aes_gcm_opened(key@, nonce@, ciphertext@) == Some(p@),
            None => aes_gcm_opened(key@, nonce@, ciphertext@) is None,
        },
{
    aes_gcm::Aes256Gcm::new(aes_gcm::Key::<aes_gcm::Aes256Gcm>::from_slice(key)).decrypt(
        aes_gcm::Nonce::from_slice(nonce),
        ciphertext,
    ).ok()
}

/// The byte `k` (from the lowest) of a number.
pub open spec fn byte_of(n: u128, k: nat) -> u8 {
    ((n >> (8 * k)) & 0xff) as u8
}

/// The nonce made of a clock reading: its 8 lowest bytes, lowest first, then 4 zeros.
pub open spec fn nonce_of(nanos: u128) -> Seq<u8> {
    Seq::new(12, |i: int| if i < 8 { byte_of(nanos, i as nat) } else { 0u8 })
}

/// The text of an AES-256-GCM encryption: the nonce, then the sealed plaintext, in hexadecimal.
pub open spec fn aes_sealed_text(key: Seq<u8>, plaintext: Seq<u8>, nanos: u128) -> Seq<char> {
    hex_encode(nonce_of(nanos) + aes_gcm_sealed(key, nonce_of(nanos), plaintext))
}

/// What AES-256-GCM decryption of a text gives.
pub open spec fn aes_opened_text(key: Seq<u8>, ciphertext: Seq<char>) -> Result<Seq<char>, Seq<char>> {
    match hex_decode(ciphertext) {
        Err(e) => Err(e),
        Ok(d) => if d.len() < 12 {
            Err("Ciphertext too short"@)
        } else {
            match aes_gcm_opened(key, d.take(12), d.skip(12)) {
                None => Err("Decryption failed (wrong key or corrupted data)"@),
                Some(p) => utf8_text(p),
            }
        },
    }
}

fn nonce_from(nanos: u128) -> (r: Vec<u8>)
    ensures
        r@ == nonce_of(nanos),
{
    let mut out: Vec<u8> = Vec::new();
    let mut i: u32 = 0;
    while i < 12
        invariant
            i <= 12,
            out@.len() == i,
            forall|j: int| 0 <= j < i ==> out@[j] == nonce_of(nanos)[j],
        decreases 12 - i,
    {
        let b: u8 = if i < 8 {
            ((nanos >> (8 * i)) & 0xff) as u8
        } else {
            0
        };
        out.push(b);
        i += 1;
    }
    proof {
        assert(out@ =~= nonce_of(nanos));
    }
    out
}

/// The production encrypter: AES-256-GCM with a key derived by SHA-256.
#[derive(Debug)]
pub struct AesEncrypter {
    key: Vec<u8>,
}

impl AesEncrypter {
    /// The 32-byte key.
    pub closed spec fn key_bytes(&self) -> Seq<u8> {
        self.key@
    }

    /// Derives the key as the SHA-256 digest of the passphrase's bytes.
    pub fn new(key: &str) -> (r: AesEncrypter)
        ensures
            r.key_bytes() == sha256_digest(encode_utf8(key@)),
            r.key_bytes().len() == 32,
    {
        AesEncrypter { key: sha256(key.as_bytes()) }
    }

    /// Encrypts with the nonce made of the given clock reading. Decrypting the result
    /// gives the plaintext back.
    pub fn encrypt_with_nanos(&self, plaintext: &str, nanos: u128) -> (r: String)
        requires
            self.key_bytes().len() == 32,
            encode_utf8(plaintext@).len() <= aes_gcm_max_plaintext(),
        ensures
            r@ == aes_sealed_text(self.key_bytes(), encode_utf8(plaintext@), nanos),
            aes_opened_text(self.key_bytes(), r@) == Ok::<Seq<char>, Seq<char>>(plaintext@),
    {
        let nonce = nonce_from(nanos);
        match aes_gcm_encrypt(self.key.as_slice(), nonce.as_slice(), plaintext.as_bytes()) {
            Some(ct) => {
                let mut all = nonce;
                let mut rest = ct;
                let ghost ctv = rest@;
                all.append(&mut rest);
                let r = encode(all.as_slice());
                proof {
                    let d = all@;
                    lemma_hex_round_trip(d);
                    assert(d.take(12) =~= nonce_of(nanos));
                    assert(d.skip(12) =~= ctv);
                    lemma_utf8_round_trip(plaintext@);
                }
                r
            },
            None => String::new(),
        }
    }

    /// Decrypts a text of `encrypt`.
    pub fn decrypt_text(&self, ciphertext: &str) -> (r: Result<String, String>)
        requires
            self.key_bytes().len() == 32,
        ensures
            text_result_view(r) == aes_opened_text(self.key_bytes(), ciphertext@),
    {
        let data = match decode(ciphertext) {
            Ok(d) => d,
            Err(e) => {
                return Err(e);
            },
        };
        if data.len() < 12 {
            return Err(text::owned("Ciphertext too short"));
        }
        let nonce = text::slice_from(data.as_slice(), 0);
        let mut nb: Vec<u8> = Vec::new();
        let mut i: usize = 0;
        while i < 12
            invariant
                i <= 12,
                12 <= data@.len(),
                nb@ == data@.take(i as int),
            decreases 12 - i,
        {
            proof {
                assert(data@.take(i + 1) =~= data@.take(i as int).push(data@[i as int]));
            }
            nb.push(data[i]);
            i += 1;
        }
        let ct = text::slice_from(data.as_slice(), 12);
        match aes_gcm_decrypt(self.key.as_slice(), nb.as_slice(), ct) {
            None => Err(text::owned("Decryption failed (wrong key or corrupted data)")),
            Some(p) => utf8_string(p),
        }
    }

    /// A key made of a clock reading: its 8 lowest bytes, then 24 copies of one byte of
    /// a scrambled reading, in hexadecimal.
    pub fn keygen_from(nanos: u128) -> (r: String)
        ensures
            r@ == hex_encode(keygen_bytes(nanos)),
    {
        let mut key: Vec<u8> = Vec::new();
        let mut i: u32 = 0;
        let fill = (nanos.wrapping_mul(6364136223846793005u128) >> 33u128) as u8;
        while i < 32
            invariant
                i <= 32,
                fill == (vstd::wrapping::u128_specs::wrapping_mul(nanos, 6364136223846793005u128)
                    >> 33u128) as u8,
                key@.len() == i,
                forall|j: int| 0 <= j < i ==> key@[j] == keygen_bytes(nanos)[j],
            decreases 32 - i,
        {
            let b: u8 = if i < 8 {
                ((nanos >> (8 * i)) & 0xff) as u8
            } else {
                fill
            };
            key.push(b);
            i += 1;
        }
        proof {
            assert(key@ =~= keygen_bytes(nanos));
        }
        encode(key.as_slice())
    }
}

/// The bytes of a generated AES key.
pub open spec fn keygen_bytes(nanos: u128) -> Seq<u8> {
    Seq::new(
        32,
        |i: int|
            if i < 8 {
                byte_of(nanos, i as nat)
            } else {
                (vstd::wrapping::u128_specs::wrapping_mul(nanos, 6364136223846793005u128)
                    >> 33u128) as u8
            },
    )
}

impl Encrypter for AesEncrypter {
    open spec fn accepts_plaintext(&self, plaintext: Seq<char>) -> bool {
        self.key_bytes().len() == 32 && encode_utf8(plaintext).len() <= aes_gcm_max_plaintext()
    }

    open spec fn accepts_ciphertext(&self, ciphertext: Seq<char>) -> bool {
        self.key_bytes().len() == 32
    }

    fn name(&self) -> (r: &str)
        ensures
            r@ == "aes-256-gcm"@,
    {
        "aes-256-gcm"
    }

    /// Encrypts with a nonce taken from the clock.
    fn encrypt(&self, plaintext: &str) -> (r: String)
        ensures
            exists|nanos: u128| r@ == aes_sealed_text(self.key_bytes(), encode_utf8(plaintext@), nanos),
            aes_opened_text(self.key_bytes(), r@) == Ok::<Seq<char>, Seq<char>>(plaintext@),
    {
        let nanos = clock::unix_nanos();
        self.encrypt_with_nanos(plaintext, nanos)
    }

    fn decrypt(&self, ciphertext: &str) -> (r: Result<String, String>)
        ensures
            text_result_view(r) == aes_opened_text(self.key_bytes(), ciphertext@),
    {
        self.decrypt_text(ciphertext)
    }

    /// A key made of a clock reading.
    fn keygen() -> (r: String)
        ensures
            exists|nanos: u128| r@ == #[trigger] hex_encode(keygen_bytes(nanos)),
    {
        let nanos = clock::unix_nanos();
        let r = AesEncrypter::keygen_from(nanos);
        proof {
            assert(r@ == hex_encode(keygen_bytes(nanos)));
        }
        r
    }
}

} // verus!
