//! The vault document's byte encoding.
//!
//! The document is written as a fixed, length-prefixed binary layout:
//! integers are little-endian, strings are UTF-8 bytes behind a 32-bit byte
//! count, options carry a one-byte presence tag, and lists a 32-bit element
//! count. Decoding is specified as a mathematical function of the bytes, and
//! decoding an encoded document is proved to give the document back.
use vstd::prelude::*;
use vstd::utf8::{encode_utf8, decode_utf8, valid_utf8};
use crate::models::{
    Account, AccountType, AccountV, PasswordOptions, Vault, VaultMetadata, VaultMetadataV,
    VaultSettings, VaultV, wf_doc,
};

verus! {

broadcast use vstd::utf8::encode_utf8_valid_utf8, vstd::utf8::encode_utf8_decode_utf8;

// ---------------------------------------------------------------------------
// Little-endian integers
// ---------------------------------------------------------------------------
/// The four little-endian bytes of `x`.
#[verifier::opaque]
pub open spec fn enc_u32(x: u32) -> Seq<u8> {
    seq![
        (x & 0xff) as u8,
        ((x >> 8) & 0xff) as u8,
        ((x >> 16) & 0xff) as u8,
        ((x >> 24) & 0xff) as u8,
    ]
}

/// The value of four little-endian bytes.
pub open spec fn combine_u32(b0: u8, b1: u8, b2: u8, b3: u8) -> u32 {
    (b0 as u32) | ((b1 as u32) << 8) | ((b2 as u32) << 16) | ((b3 as u32) << 24)
}

/// `enc_u32` always writes four bytes.
pub broadcast proof fn lemma_enc_u32_len(x: u32)
    ensures
        (#[trigger] enc_u32(x)).len() == 4,
{
    reveal(enc_u32);
}

/// Reading four little-endian bytes at `i`.
pub open spec fn dec_u32_at(b: Seq<u8>, i: int) -> Option<(u32, int)> {
    if 0 <= i && i + 4 <= b.len() {
        Some((combine_u32(b[i], b[i + 1], b[i + 2], b[i + 3]), i + 4))
    } else {
        None
    }
}

proof fn lemma_u32_le_round_trip(x: u32)
    ensures
        combine_u32(
            (x & 0xff) as u8,
            ((x >> 8) & 0xff) as u8,
            ((x >> 16) & 0xff) as u8,
            ((x >> 24) & 0xff) as u8,
        ) == x,
{
    assert((((x & 0xff) as u8) as u32) | ((((x >> 8) & 0xff) as u8 as u32) << 8) | ((((x >> 16)
        & 0xff) as u8 as u32) << 16) | ((((x >> 24) & 0xff) as u8 as u32) << 24) == x)
        by (bit_vector);
}

/// Decoding at the position where `enc_u32(x)` was written gives `x` back.
pub proof fn lemma_dec_u32(b: Seq<u8>, i: int, x: u32)
    requires
        0 <= i,
        i + 4 <= b.len(),
        b.subrange(i, i + 4) == enc_u32(x),
    ensures
        dec_u32_at(b, i) == Some((x, i + 4)),
{
    reveal(enc_u32);
    assert(b[i] == enc_u32(x)[0]);
    assert(b[i + 1] == enc_u32(x)[1]);
    assert(b[i + 2] == enc_u32(x)[2]);
    assert(b[i + 3] == enc_u32(x)[3]);
    lemma_u32_le_round_trip(x);
}

/// The eight little-endian bytes of `x`.
#[verifier::opaque]
pub open spec fn enc_u64(x: u64) -> Seq<u8> {
    seq![
        (x & 0xff) as u8,
        ((x >> 8) & 0xff) as u8,
        ((x >> 16) & 0xff) as u8,
        ((x >> 24) & 0xff) as u8,
        ((x >> 32) & 0xff) as u8,
        ((x >> 40) & 0xff) as u8,
        ((x >> 48) & 0xff) as u8,
        ((x >> 56) & 0xff) as u8,
    ]
}

/// The value of eight little-endian bytes.
pub open spec fn combine_u64(b: Seq<u8>) -> u64
    recommends
        b.len() == 8,
{
    (b[0] as u64) | ((b[1] as u64) << 8) | ((b[2] as u64) << 16) | ((b[3] as u64) << 24) | ((
    b[4] as u64) << 32) | ((b[5] as u64) << 40) | ((b[6] as u64) << 48) | ((b[7] as u64) << 56)
}

/// `enc_u64` always writes eight bytes.
pub broadcast proof fn lemma_enc_u64_len(x: u64)
    ensures
        (#[trigger] enc_u64(x)).len() == 8,
{
    reveal(enc_u64);
}

/// Reading eight little-endian bytes at `i`.
pub open spec fn dec_u64_at(b: Seq<u8>, i: int) -> Option<(u64, int)> {
    if 0 <= i && i + 8 <= b.len() {
        Some((combine_u64(b.subrange(i, i + 8)), i + 8))
    } else {
        None
    }
}

proof fn lemma_u64_le_round_trip(x: u64)
    ensures
        combine_u64(enc_u64(x)) == x,
{
    reveal(enc_u64);
    assert((((x & 0xff) as u8) as u64) | ((((x >> 8) & 0xff) as u8 as u64) << 8) | ((((x >> 16)
        & 0xff) as u8 as u64) << 16) | ((((x >> 24) & 0xff) as u8 as u64) << 24) | ((((x >> 32)
        & 0xff) as u8 as u64) << 32) | ((((x >> 40) & 0xff) as u8 as u64) << 40) | ((((x >> 48)
        & 0xff) as u8 as u64) << 48) | ((((x >> 56) & 0xff) as u8 as u64) << 56) == x)
        by (bit_vector);
}

/// Decoding at the position where `enc_u64(x)` was written gives `x` back.
pub proof fn lemma_dec_u64(b: Seq<u8>, i: int, x: u64)
    requires
        0 <= i,
        i + 8 <= b.len(),
        b.subrange(i, i + 8) == enc_u64(x),
    ensures
        dec_u64_at(b, i) == Some((x, i + 8)),
{
    reveal(enc_u64);
    lemma_u64_le_round_trip(x);
}

/// The sixteen little-endian bytes of `x`: low half first.
pub open spec fn enc_u128(x: u128) -> Seq<u8> {
    enc_u64(x as u64) + enc_u64((x >> 64) as u64)
}

/// The value of a low and a high 64-bit half.
pub open spec fn combine_u128(lo: u64, hi: u64) -> u128 {
    (lo as u128) | ((hi as u128) << 64)
}

/// Reading sixteen little-endian bytes at `i`.
pub open spec fn dec_u128_at(b: Seq<u8>, i: int) -> Option<(u128, int)> {
    match dec_u64_at(b, i) {
        None => None,
        Some((lo, j)) => match dec_u64_at(b, j) {
            None => None,
            Some((hi, k)) => Some((combine_u128(lo, hi), k)),
        },
    }
}

proof fn lemma_u128_halves_round_trip(x: u128)
    ensures
        combine_u128(x as u64, (x >> 64) as u64) == x,
{
    assert(((x as u64) as u128) | ((((x >> 64) as u64) as u128) << 64) == x) by (bit_vector);
}

/// Two sequences laid out one after the other at `i` occupy their own
/// subranges of `b`.
pub proof fn lemma_split_concat(b: Seq<u8>, i: int, s1: Seq<u8>, s2: Seq<u8>)
    requires
        0 <= i,
        i + s1.len() + s2.len() <= b.len(),
        b.subrange(i, i + s1.len() + s2.len()) == s1 + s2,
    ensures
        b.subrange(i, i + s1.len()) == s1,
        b.subrange(i + s1.len(), i + s1.len() + s2.len()) == s2,
{
    let whole = b.subrange(i, i + s1.len() + s2.len());
    assert forall|k: int| 0 <= k < s1.len() implies b[i + k] == s1[k] by {
        assert(whole[k] == (s1 + s2)[k]);
    }
    assert forall|k: int| 0 <= k < s2.len() implies b[i + s1.len() + k] == s2[k] by {
        assert(whole[s1.len() + k] == (s1 + s2)[s1.len() + k]);
    }
    assert(b.subrange(i, i + s1.len()) =~= s1);
    assert(b.subrange(i + s1.len(), i + s1.len() + s2.len()) =~= s2);
}

/// Decoding at the position where `enc_u128(x)` was written gives `x` back.
pub proof fn lemma_dec_u128(b: Seq<u8>, i: int, x: u128)
    requires
        0 <= i,
        i + 16 <= b.len(),
        b.subrange(i, i + 16) == enc_u128(x),
    ensures
        dec_u128_at(b, i) == Some((x, i + 16)),
{
    broadcast use lemma_enc_u32_len, lemma_enc_u64_len;
    lemma_split_concat(b, i, enc_u64(x as u64), enc_u64((x >> 64) as u64));
    lemma_dec_u64(b, i, x as u64);
    lemma_dec_u64(b, i + 8, (x >> 64) as u64);
    lemma_u128_halves_round_trip(x);
}

// ---------------------------------------------------------------------------
// Bytes, strings, presence tags
// ---------------------------------------------------------------------------
/// A byte string behind its 32-bit byte count.
pub open spec fn enc_bytes(s: Seq<u8>) -> Seq<u8> {
    enc_u32(s.len() as u32) + s
}

/// Reading a length-prefixed byte string at `i`.
pub open spec fn dec_bytes_at(b: Seq<u8>, i: int) -> Option<(Seq<u8>, int)> {
    match dec_u32_at(b, i) {
        None => None,
        Some((n, j)) => if j + n <= b.len() {
            Some((b.subrange(j, j + n), j + n))
        } else {
            None
        },
    }
}

/// The byte count fits its 32-bit prefix.
pub open spec fn bytes_encodable(s: Seq<u8>) -> bool {
    s.len() <= u32::MAX
}

/// Decoding at the position where `enc_bytes(s)` was written gives `s` back.
pub proof fn lemma_dec_bytes(b: Seq<u8>, i: int, s: Seq<u8>)
    requires
        bytes_encodable(s),
        0 <= i,
        i + enc_bytes(s).len() <= b.len(),
        b.subrange(i, i + enc_bytes(s).len()) == enc_bytes(s),
    ensures
        dec_bytes_at(b, i) == Some((s, i + 4 + s.len())),
{
    broadcast use lemma_enc_u32_len, lemma_enc_u64_len;
    lemma_split_concat(b, i, enc_u32(s.len() as u32), s);
    lemma_dec_u32(b, i, s.len() as u32);
    assert(s.len() as u32 == s.len());
    assert(b.subrange(i + 4, i + 4 + s.len()) == s);
}

/// A piece of text as its UTF-8 bytes behind a 32-bit byte count.
pub open spec fn enc_str(s: Seq<char>) -> Seq<u8> {
    enc_bytes(encode_utf8(s))
}

/// Reading a length-prefixed UTF-8 string at `i`.
pub open spec fn dec_str_at(b: Seq<u8>, i: int) -> Option<(Seq<char>, int)> {
    match dec_bytes_at(b, i) {
        None => None,
        Some((bs, j)) => if valid_utf8(bs) {
            Some((decode_utf8(bs), j))
        } else {
            None
        },
    }
}

/// The text's UTF-8 byte count fits its 32-bit prefix.
pub open spec fn str_encodable(s: Seq<char>) -> bool {
    encode_utf8(s).len() <= u32::MAX
}

/// Decoding at the position where `enc_str(s)` was written gives `s` back.
pub proof fn lemma_dec_str(b: Seq<u8>, i: int, s: Seq<char>)
    requires
        str_encodable(s),
        0 <= i,
        i + enc_str(s).len() <= b.len(),
        b.subrange(i, i + enc_str(s).len()) == enc_str(s),
    ensures
        dec_str_at(b, i) == Some((s, i + enc_str(s).len())),
{
    broadcast use lemma_enc_u32_len, lemma_enc_u64_len;
    lemma_dec_bytes(b, i, encode_utf8(s));
}

/// A truth value as one byte.
pub open spec fn enc_bool(v: bool) -> Seq<u8> {
    seq![if v { 1u8 } else { 0u8 }]
}

/// Reading a one-byte truth value at `i`.
pub open spec fn dec_bool_at(b: Seq<u8>, i: int) -> Option<(bool, int)> {
    if 0 <= i && i + 1 <= b.len() {
        if b[i] == 0 {
            Some((false, i + 1))
        } else if b[i] == 1 {
            Some((true, i + 1))
        } else {
            None
        }
    } else {
        None
    }
}

pub proof fn lemma_dec_bool(b: Seq<u8>, i: int, v: bool)
    requires
        0 <= i,
        i + 1 <= b.len(),
        b.subrange(i, i + 1) == enc_bool(v),
    ensures
        dec_bool_at(b, i) == Some((v, i + 1)),
{
    assert(b[i] == enc_bool(v)[0]);
}

/// A usize written as eight little-endian bytes.
pub open spec fn enc_usize(x: usize) -> Seq<u8> {
    enc_u64(x as u64)
}

/// Reading a usize at `i`; a value too large for this machine is refused.
pub open spec fn dec_usize_at(b: Seq<u8>, i: int) -> Option<(usize, int)> {
    match dec_u64_at(b, i) {
        None => None,
        Some((x, j)) => if x <= usize::MAX {
            Some((x as usize, j))
        } else {
            None
        },
    }
}

pub proof fn lemma_dec_usize(b: Seq<u8>, i: int, x: usize)
    requires
        0 <= i,
        i + 8 <= b.len(),
        b.subrange(i, i + 8) == enc_usize(x),
    ensures
        dec_usize_at(b, i) == Some((x, i + 8)),
{
    broadcast use lemma_enc_u32_len, lemma_enc_u64_len;
    lemma_dec_u64(b, i, x as u64);
}

/// Optional text: a presence byte, then the text when present.
pub open spec fn enc_opt_str(o: Option<Seq<char>>) -> Seq<u8> {
    match o {
        None => seq![0u8],
        Some(s) => seq![1u8] + enc_str(s),
    }
}

/// Reading optional text at `i`.
pub open spec fn dec_opt_str_at(b: Seq<u8>, i: int) -> Option<(Option<Seq<char>>, int)> {
    if 0 <= i && i + 1 <= b.len() {
        if b[i] == 0 {
            Some((None, i + 1))
        } else if b[i] == 1 {
            match dec_str_at(b, i + 1) {
                None => None,
                Some((s, j)) => Some((Some(s), j)),
            }
        } else {
            None
        }
    } else {
        None
    }
}

/// The optional text, when present, fits its length prefix.
pub open spec fn opt_str_encodable(o: Option<Seq<char>>) -> bool {
    match o {
        None => true,
        Some(s) => str_encodable(s),
    }
}

pub proof fn lemma_dec_opt_str(b: Seq<u8>, i: int, o: Option<Seq<char>>)
    requires
        opt_str_encodable(o),
        0 <= i,
        i + enc_opt_str(o).len() <= b.len(),
        b.subrange(i, i + enc_opt_str(o).len()) == enc_opt_str(o),
    ensures
        dec_opt_str_at(b, i) == Some((o, i + enc_opt_str(o).len())),
{
    broadcast use lemma_enc_u32_len, lemma_enc_u64_len;
    match o {
        None => {
            assert(b[i] == enc_opt_str(o)[0]);
        },
        Some(s) => {
            lemma_split_concat(b, i, seq![1u8], enc_str(s));
            assert(b[i] == (seq![1u8])[0]);
            lemma_dec_str(b, i + 1, s);
        },
    }
}

/// An optional timestamp: a presence byte, then the value when present.
pub open spec fn enc_opt_u64(o: Option<u64>) -> Seq<u8> {
    match o {
        None => seq![0u8],
        Some(x) => seq![1u8] + enc_u64(x),
    }
}

/// Reading an optional timestamp at `i`.
pub open spec fn dec_opt_u64_at(b: Seq<u8>, i: int) -> Option<(Option<u64>, int)> {
    if 0 <= i && i + 1 <= b.len() {
        if b[i] == 0 {
            Some((None, i + 1))
        } else if b[i] == 1 {
            match dec_u64_at(b, i + 1) {
                None => None,
                Some((x, j)) => Some((Some(x), j)),
            }
        } else {
            None
        }
    } else {
        None
    }
}

pub proof fn lemma_dec_opt_u64(b: Seq<u8>, i: int, o: Option<u64>)
    requires
        0 <= i,
        i + enc_opt_u64(o).len() <= b.len(),
        b.subrange(i, i + enc_opt_u64(o).len()) == enc_opt_u64(o),
    ensures
        dec_opt_u64_at(b, i) == Some((o, i + enc_opt_u64(o).len())),
{
    broadcast use lemma_enc_u32_len, lemma_enc_u64_len;
    match o {
        None => {
            assert(b[i] == enc_opt_u64(o)[0]);
        },
        Some(x) => {
            lemma_split_concat(b, i, seq![1u8], enc_u64(x));
            assert(b[i] == (seq![1u8])[0]);
            lemma_dec_u64(b, i + 1, x);
        },
    }
}

// ---------------------------------------------------------------------------
// Account categories
// ---------------------------------------------------------------------------
/// A category as its one-byte tag.
pub open spec fn enc_account_type(t: AccountType) -> Seq<u8> {
    seq![t.tag_spec()]
}

/// Reading a category tag at `i`.
pub open spec fn dec_account_type_at(b: Seq<u8>, i: int) -> Option<(AccountType, int)> {
    if 0 <= i && i + 1 <= b.len() {
        match AccountType::from_tag_spec(b[i]) {
            None => None,
            Some(t) => Some((t, i + 1)),
        }
    } else {
        None
    }
}

pub proof fn lemma_dec_account_type(b: Seq<u8>, i: int, t: AccountType)
    requires
        0 <= i,
        i + 1 <= b.len(),
        b.subrange(i, i + 1) == enc_account_type(t),
    ensures
        dec_account_type_at(b, i) == Some((t, i + 1)),
{
    assert(b[i] == enc_account_type(t)[0]);
    t.lemma_tag_round_trip();
}

// ---------------------------------------------------------------------------
// Password options and settings
// ---------------------------------------------------------------------------
/// The byte layout of generation options: the length, then the six switches.
pub open spec fn enc_options(o: PasswordOptions) -> Seq<u8> {
    enc_usize(o.length) + (enc_bool(o.include_uppercase) + (enc_bool(o.include_lowercase)
        + (enc_bool(o.include_numbers) + (enc_bool(o.include_special) + (enc_bool(
        o.exclude_similar,
    ) + enc_bool(o.exclude_ambiguous))))))
}

/// Reading generation options at `i`.
pub open spec fn dec_options_at(b: Seq<u8>, i: int) -> Option<(PasswordOptions, int)> {
    match dec_usize_at(b, i) {
        None => None,
        Some((length, i1)) => match dec_bool_at(b, i1) {
            None => None,
            Some((include_uppercase, i2)) => match dec_bool_at(b, i2) {
                None => None,
                Some((include_lowercase, i3)) => match dec_bool_at(b, i3) {
                    None => None,
                    Some((include_numbers, i4)) => match dec_bool_at(b, i4) {
                        None => None,
                        Some((include_special, i5)) => match dec_bool_at(b, i5) {
                            None => None,
                            Some((exclude_similar, i6)) => match dec_bool_at(b, i6) {
                                None => None,
                                Some((exclude_ambiguous, i7)) => Some(
                                    (
                                        PasswordOptions {
                                            length,
                                            include_uppercase,
                                            include_lowercase,
                                            include_numbers,
                                            include_special,
                                            exclude_similar,
                                            exclude_ambiguous,
                                        },
                                        i7,
                                    ),
                                ),
                            },
                        },
                    },
                },
            },
        },
    }
}

pub proof fn lemma_dec_options(b: Seq<u8>, i: int, o: PasswordOptions)
    requires
        0 <= i,
        i + enc_options(o).len() <= b.len(),
        b.subrange(i, i + enc_options(o).len()) == enc_options(o),
    ensures
        dec_options_at(b, i) == Some((o, i + enc_options(o).len())),
{
    broadcast use lemma_enc_u32_len, lemma_enc_u64_len;
    let e1 = enc_usize(o.length);
    let e2 = enc_bool(o.include_uppercase);
    let e3 = enc_bool(o.include_lowercase);
    let e4 = enc_bool(o.include_numbers);
    let e5 = enc_bool(o.include_special);
    let e6 = enc_bool(o.exclude_similar);
    let e7 = enc_bool(o.exclude_ambiguous);
    let r1 = e2 + (e3 + (e4 + (e5 + (e6 + e7))));
    lemma_split_concat(b, i, e1, r1);
    lemma_dec_usize(b, i, o.length);
    let i1 = i + 8;
    let r2 = e3 + (e4 + (e5 + (e6 + e7)));
    lemma_split_concat(b, i1, e2, r2);
    lemma_dec_bool(b, i1, o.include_uppercase);
    let i2 = i1 + 1;
    let r3 = e4 + (e5 + (e6 + e7));
    lemma_split_concat(b, i2, e3, r3);
    lemma_dec_bool(b, i2, o.include_lowercase);
    let i3 = i2 + 1;
    let r4 = e5 + (e6 + e7);
    lemma_split_concat(b, i3, e4, r4);
    lemma_dec_bool(b, i3, o.include_numbers);
    let i4 = i3 + 1;
    let r5 = e6 + e7;
    lemma_split_concat(b, i4, e5, r5);
    lemma_dec_bool(b, i4, o.include_special);
    let i5 = i4 + 1;
    lemma_split_concat(b, i5, e6, e7);
    lemma_dec_bool(b, i5, o.exclude_similar);
    let i6 = i5 + 1;
    lemma_dec_bool(b, i6, o.exclude_ambiguous);
}

/// The byte layout of vault settings.
pub open spec fn enc_settings(s: VaultSettings) -> Seq<u8> {
    enc_u32(s.auto_lock_timeout) + (enc_bool(s.require_confirmation) + (enc_bool(
        s.auto_clear_clipboard,
    ) + (enc_u32(s.clipboard_timeout) + (enc_bool(s.show_strength_indicators) + enc_options(
        s.default_password_options,
    )))))
}

/// Reading vault settings at `i`.
pub open spec fn dec_settings_at(b: Seq<u8>, i: int) -> Option<(VaultSettings, int)> {
    match dec_u32_at(b, i) {
        None => None,
        Some((auto_lock_timeout, i1)) => match dec_bool_at(b, i1) {
            None => None,
            Some((require_confirmation, i2)) => match dec_bool_at(b, i2) {
                None => None,
                Some((auto_clear_clipboard, i3)) => match dec_u32_at(b, i3) {
                    None => None,
                    Some((clipboard_timeout, i4)) => match dec_bool_at(b, i4) {
                        None => None,
                        Some((show_strength_indicators, i5)) => match dec_options_at(b, i5) {
                            None => None,
                            Some((default_password_options, i6)) => Some(
                                (
                                    VaultSettings {
                                        auto_lock_timeout,
                                        require_confirmation,
                                        auto_clear_clipboard,
                                        clipboard_timeout,
                                        show_strength_indicators,
                                        default_password_options,
                                    },
                                    i6,
                                ),
                            ),
                        },
                    },
                },
            },
        },
    }
}

pub proof fn lemma_dec_settings(b: Seq<u8>, i: int, s: VaultSettings)
    requires
        0 <= i,
        i + enc_settings(s).len() <= b.len(),
        b.subrange(i, i + enc_settings(s).len()) == enc_settings(s),
    ensures
        dec_settings_at(b, i) == Some((s, i + enc_settings(s).len())),
{
    broadcast use lemma_enc_u32_len, lemma_enc_u64_len;
    let e1 = enc_u32(s.auto_lock_timeout);
    let e2 = enc_bool(s.require_confirmation);
    let e3 = enc_bool(s.auto_clear_clipboard);
    let e4 = enc_u32(s.clipboard_timeout);
    let e5 = enc_bool(s.show_strength_indicators);
    let e6 = enc_options(s.default_password_options);
    let r1 = e2 + (e3 + (e4 + (e5 + e6)));
    lemma_split_concat(b, i, e1, r1);
    lemma_dec_u32(b, i, s.auto_lock_timeout);
    let i1 = i + 4;
    let r2 = e3 + (e4 + (e5 + e6));
    lemma_split_concat(b, i1, e2, r2);
    lemma_dec_bool(b, i1, s.require_confirmation);
    let i2 = i1 + 1;
    let r3 = e4 + (e5 + e6);
    lemma_split_concat(b, i2, e3, r3);
    lemma_dec_bool(b, i2, s.auto_clear_clipboard);
    let i3 = i2 + 1;
    let r4 = e5 + e6;
    lemma_split_concat(b, i3, e4, r4);
    lemma_dec_u32(b, i3, s.clipboard_timeout);
    let i4 = i3 + 4;
    lemma_split_concat(b, i4, e5, e6);
    lemma_dec_bool(b, i4, s.show_strength_indicators);
    let i5 = i4 + 1;
    lemma_dec_options(b, i5, s.default_password_options);
}

// ---------------------------------------------------------------------------
// Metadata
// ---------------------------------------------------------------------------
/// The byte layout of vault metadata.
pub open spec fn enc_metadata(m: VaultMetadataV) -> Seq<u8> {
    enc_str(m.version) + (enc_str(m.email) + (enc_u64(m.created_at) + (enc_u64(m.last_modified)
        + (enc_usize(m.account_count) + enc_settings(m.settings)))))
}

/// Reading vault metadata at `i`.
pub open spec fn dec_metadata_at(b: Seq<u8>, i: int) -> Option<(VaultMetadataV, int)> {
    match dec_str_at(b, i) {
        None => None,
        Some((version, i1)) => match dec_str_at(b, i1) {
            None => None,
            Some((email, i2)) => match dec_u64_at(b, i2) {
                None => None,
                Some((created_at, i3)) => match dec_u64_at(b, i3) {
                    None => None,
                    Some((last_modified, i4)) => match dec_usize_at(b, i4) {
                        None => None,
                        Some((account_count, i5)) => match dec_settings_at(b, i5) {
                            None => None,
                            Some((settings, i6)) => Some(
                                (
                                    VaultMetadataV {
                                        version,
                                        email,
                                        created_at,
                                        last_modified,
                                        account_count,
                                        settings,
                                    },
                                    i6,
                                ),
                            ),
                        },
                    },
                },
            },
        },
    }
}

/// Both pieces of metadata text fit their length prefixes.
pub open spec fn metadata_encodable(m: VaultMetadataV) -> bool {
    str_encodable(m.version) && str_encodable(m.email)
}

pub proof fn lemma_dec_metadata(b: Seq<u8>, i: int, m: VaultMetadataV)
    requires
        metadata_encodable(m),
        0 <= i,
        i + enc_metadata(m).len() <= b.len(),
        b.subrange(i, i + enc_metadata(m).len()) == enc_metadata(m),
    ensures
        dec_metadata_at(b, i) == Some((m, i + enc_metadata(m).len())),
{
    broadcast use lemma_enc_u32_len, lemma_enc_u64_len;

    let e1 = enc_str(m.version);
    let e2 = enc_str(m.email);
    let e3 = enc_u64(m.created_at);
    let e4 = enc_u64(m.last_modified);
    let e5 = enc_usize(m.account_count);
    let e6 = enc_settings(m.settings);
    let r1 = e2 + (e3 + (e4 + (e5 + e6)));
    lemma_split_concat(b, i, e1, r1);
    lemma_dec_str(b, i, m.version);
    let i1 = i + e1.len();
    let r2 = e3 + (e4 + (e5 + e6));
    lemma_split_concat(b, i1, e2, r2);
    lemma_dec_str(b, i1, m.email);
    let i2 = i1 + e2.len();
    let r3 = e4 + (e5 + e6);
    lemma_split_concat(b, i2, e3, r3);
    lemma_dec_u64(b, i2, m.created_at);
    let i3 = i2 + 8;
    let r4 = e5 + e6;
    lemma_split_concat(b, i3, e4, r4);
    lemma_dec_u64(b, i3, m.last_modified);
    let i4 = i3 + 8;
    lemma_split_concat(b, i4, e5, e6);
    lemma_dec_usize(b, i4, m.account_count);
    let i5 = i4 + 8;
    lemma_dec_settings(b, i5, m.settings);
}

// ---------------------------------------------------------------------------
// Lists of strings
// ---------------------------------------------------------------------------
/// The items of a list of strings, one after the other.
pub open spec fn enc_str_items(ss: Seq<Seq<char>>) -> Seq<u8>
    decreases ss.len(),
{
    if ss.len() == 0 {
        Seq::<u8>::empty()
    } else {
        enc_str(ss[0]) + enc_str_items(ss.drop_first())
    }
}

/// A list of strings behind its 32-bit element count.
pub open spec fn enc_str_list(ss: Seq<Seq<char>>) -> Seq<u8> {
    enc_u32(ss.len() as u32) + enc_str_items(ss)
}

/// Reading `n` strings one after the other at `i`.
pub open spec fn dec_str_items_at(b: Seq<u8>, i: int, n: int) -> Option<(Seq<Seq<char>>, int)>
    decreases n,
{
    if n <= 0 {
        Some((Seq::<Seq<char>>::empty(), i))
    } else {
        match dec_str_at(b, i) {
            None => None,
            Some((s, j)) => match dec_str_items_at(b, j, n - 1) {
                None => None,
                Some((ss, k)) => Some((seq![s] + ss, k)),
            },
        }
    }
}

/// Reading a counted list of strings at `i`.
pub open spec fn dec_str_list_at(b: Seq<u8>, i: int) -> Option<(Seq<Seq<char>>, int)> {
    match dec_u32_at(b, i) {
        None => None,
        Some((n, j)) => dec_str_items_at(b, j, n as int),
    }
}

/// Every string fits its length prefix and the count fits its own.
pub open spec fn strs_encodable(ss: Seq<Seq<char>>) -> bool {
    ss.len() <= u32::MAX && forall|k: int| 0 <= k < ss.len() ==> str_encodable(#[trigger] ss[k])
}

proof fn lemma_dec_str_items(b: Seq<u8>, i: int, ss: Seq<Seq<char>>)
    requires
        strs_encodable(ss),
        0 <= i,
        i + enc_str_items(ss).len() <= b.len(),
        b.subrange(i, i + enc_str_items(ss).len()) == enc_str_items(ss),
    ensures
        dec_str_items_at(b, i, ss.len() as int) == Some((ss, i + enc_str_items(ss).len())),
    decreases ss.len(),
{
    if ss.len() == 0 {
        assert(dec_str_items_at(b, i, 0) == Some((Seq::<Seq<char>>::empty(), i)));
        assert(ss =~= Seq::<Seq<char>>::empty());
    } else {
        let e1 = enc_str(ss[0]);
        let rest = enc_str_items(ss.drop_first());
        lemma_split_concat(b, i, e1, rest);
        lemma_dec_str(b, i, ss[0]);
        let i1 = i + e1.len();
        assert(strs_encodable(ss.drop_first()));
        lemma_dec_str_items(b, i1, ss.drop_first());
        assert(seq![ss[0]] + ss.drop_first() =~= ss);
    }
}

pub proof fn lemma_dec_str_list(b: Seq<u8>, i: int, ss: Seq<Seq<char>>)
    requires
        strs_encodable(ss),
        0 <= i,
        i + enc_str_list(ss).len() <= b.len(),
        b.subrange(i, i + enc_str_list(ss).len()) == enc_str_list(ss),
    ensures
        dec_str_list_at(b, i) == Some((ss, i + enc_str_list(ss).len())),
{
    broadcast use lemma_enc_u32_len;

    lemma_split_concat(b, i, enc_u32(ss.len() as u32), enc_str_items(ss));
    lemma_dec_u32(b, i, ss.len() as u32);
    lemma_dec_str_items(b, i + 4, ss);
}

// ---------------------------------------------------------------------------
// Accounts
// ---------------------------------------------------------------------------
/// The byte layout of one account record.
#[verifier::opaque]
pub open spec fn enc_account(a: AccountV) -> Seq<u8> {
    enc_u128(a.id) + (enc_str(a.name) + (enc_account_type(a.account_type) + (enc_opt_str(a.url)
        + (enc_opt_str(a.username) + (enc_str(a.password) + (enc_opt_str(a.notes) + (enc_str_list(
        a.tags,
    ) + (enc_u64(a.created_at) + (enc_u64(a.updated_at) + enc_opt_u64(a.last_accessed))))))))))
}

/// Reading one account record at `i`.
#[verifier::opaque]
pub open spec fn dec_account_at(b: Seq<u8>, i: int) -> Option<(AccountV, int)> {
    match dec_u128_at(b, i) {
        None => None,
        Some((id, i1)) => match dec_str_at(b, i1) {
            None => None,
            Some((name, i2)) => match dec_account_type_at(b, i2) {
                None => None,
                Some((account_type, i3)) => match dec_opt_str_at(b, i3) {
                    None => None,
                    Some((url, i4)) => match dec_opt_str_at(b, i4) {
                        None => None,
                        Some((username, i5)) => match dec_str_at(b, i5) {
                            None => None,
                            Some((password, i6)) => match dec_opt_str_at(b, i6) {
                                None => None,
                                Some((notes, i7)) => match dec_str_list_at(b, i7) {
                                    None => None,
                                    Some((tags, i8)) => match dec_u64_at(b, i8) {
                                        None => None,
                                        Some((created_at, i9)) => match dec_u64_at(b, i9) {
                                            None => None,
                                            Some((updated_at, i10)) => match dec_opt_u64_at(
                                                b,
                                                i10,
                                            ) {
                                                None => None,
                                                Some((last_accessed, i11)) => Some(
                                                    (
                                                        AccountV {
                                                            id,
                                                            name,
                                                            account_type,
                                                            url,
                                                            username,
                                                            password,
                                                            notes,
                                                            tags,
                                                            created_at,
                                                            updated_at,
                                                            last_accessed,
                                                        },
                                                        i11,
                                                    ),
                                                ),
                                            },
                                        },
                                    },
                                },
                            },
                        },
                    },
                },
            },
        },
    }
}

/// Every text field and the tag list fit their length prefixes.
pub open spec fn account_encodable(a: AccountV) -> bool {
    &&& str_encodable(a.name)
    &&& opt_str_encodable(a.url)
    &&& opt_str_encodable(a.username)
    &&& str_encodable(a.password)
    &&& opt_str_encodable(a.notes)
    &&& strs_encodable(a.tags)
}

pub proof fn lemma_dec_account(b: Seq<u8>, i: int, a: AccountV)
    requires
        account_encodable(a),
        0 <= i,
        i + enc_account(a).len() <= b.len(),
        b.subrange(i, i + enc_account(a).len()) == enc_account(a),
    ensures
        dec_account_at(b, i) == Some((a, i + enc_account(a).len())),
{
    broadcast use lemma_enc_u32_len, lemma_enc_u64_len;

    reveal(enc_account);
    reveal(dec_account_at);
    let e1 = enc_u128(a.id);
    let e2 = enc_str(a.name);
    let e3 = enc_account_type(a.account_type);
    let e4 = enc_opt_str(a.url);
    let e5 = enc_opt_str(a.username);
    let e6 = enc_str(a.password);
    let e7 = enc_opt_str(a.notes);
    let e8 = enc_str_list(a.tags);
    let e9 = enc_u64(a.created_at);
    let e10 = enc_u64(a.updated_at);
    let e11 = enc_opt_u64(a.last_accessed);
    let r1 = e2 + (e3 + (e4 + (e5 + (e6 + (e7 + (e8 + (e9 + (e10 + e11))))))));
    lemma_split_concat(b, i, e1, r1);
    lemma_dec_u128(b, i, a.id);
    let i1 = i + 16;
    let r2 = e3 + (e4 + (e5 + (e6 + (e7 + (e8 + (e9 + (e10 + e11)))))));
    lemma_split_concat(b, i1, e2, r2);
    lemma_dec_str(b, i1, a.name);
    let i2 = i1 + e2.len();
    let r3 = e4 + (e5 + (e6 + (e7 + (e8 + (e9 + (e10 + e11))))));
    lemma_split_concat(b, i2, e3, r3);
    lemma_dec_account_type(b, i2, a.account_type);
    let i3 = i2 + 1;
    let r4 = e5 + (e6 + (e7 + (e8 + (e9 + (e10 + e11)))));
    lemma_split_concat(b, i3, e4, r4);
    lemma_dec_opt_str(b, i3, a.url);
    let i4 = i3 + e4.len();
    let r5 = e6 + (e7 + (e8 + (e9 + (e10 + e11))));
    lemma_split_concat(b, i4, e5, r5);
    lemma_dec_opt_str(b, i4, a.username);
    let i5 = i4 + e5.len();
    let r6 = e7 + (e8 + (e9 + (e10 + e11)));
    lemma_split_concat(b, i5, e6, r6);
    lemma_dec_str(b, i5, a.password);
    let i6 = i5 + e6.len();
    let r7 = e8 + (e9 + (e10 + e11));
    lemma_split_concat(b, i6, e7, r7);
    lemma_dec_opt_str(b, i6, a.notes);
    let i7 = i6 + e7.len();
    let r8 = e9 + (e10 + e11);
    lemma_split_concat(b, i7, e8, r8);
    lemma_dec_str_list(b, i7, a.tags);
    let i8 = i7 + e8.len();
    let r9 = e10 + e11;
    lemma_split_concat(b, i8, e9, r9);
    lemma_dec_u64(b, i8, a.created_at);
    let i9 = i8 + 8;
    lemma_split_concat(b, i9, e10, e11);
    lemma_dec_u64(b, i9, a.updated_at);
    let i10 = i9 + 8;
    lemma_dec_opt_u64(b, i10, a.last_accessed);
}

// ---------------------------------------------------------------------------
// Lists of accounts and the whole document
// ---------------------------------------------------------------------------
/// The records of the account list, one after the other.
pub open spec fn enc_account_items(accs: Seq<AccountV>) -> Seq<u8>
    decreases accs.len(),
{
    if accs.len() == 0 {
        Seq::<u8>::empty()
    } else {
        enc_account(accs[0]) + enc_account_items(accs.drop_first())
    }
}

/// The account list behind its 32-bit element count.
pub open spec fn enc_account_list(accs: Seq<AccountV>) -> Seq<u8> {
    enc_u32(accs.len() as u32) + enc_account_items(accs)
}

/// Reading `n` account records one after the other at `i`.
pub open spec fn dec_account_items_at(b: Seq<u8>, i: int, n: int) -> Option<(Seq<AccountV>, int)>
    decreases n,
{
    if n <= 0 {
        Some((Seq::<AccountV>::empty(), i))
    } else {
        match dec_account_at(b, i) {
            None => None,
            Some((a, j)) => match dec_account_items_at(b, j, n - 1) {
                None => None,
                Some((accs, k)) => Some((seq![a] + accs, k)),
            },
        }
    }
}

/// Reading a counted account list at `i`.
pub open spec fn dec_account_list_at(b: Seq<u8>, i: int) -> Option<(Seq<AccountV>, int)> {
    match dec_u32_at(b, i) {
        None => None,
        Some((n, j)) => dec_account_items_at(b, j, n as int),
    }
}

/// Every record is encodable and the count fits its prefix.
pub open spec fn accounts_encodable(accs: Seq<AccountV>) -> bool {
    accs.len() <= u32::MAX && forall|k: int|
        0 <= k < accs.len() ==> account_encodable(#[trigger] accs[k])
}

proof fn lemma_dec_account_items(b: Seq<u8>, i: int, accs: Seq<AccountV>)
    requires
        accounts_encodable(accs),
        0 <= i,
        i + enc_account_items(accs).len() <= b.len(),
        b.subrange(i, i + enc_account_items(accs).len()) == enc_account_items(accs),
    ensures
        dec_account_items_at(b, i, accs.len() as int) == Some(
            (accs, i + enc_account_items(accs).len()),
        ),
    decreases accs.len(),
{
    if accs.len() == 0 {
        assert(accs =~= Seq::<AccountV>::empty());
    } else {
        let e1 = enc_account(accs[0]);
        let rest = enc_account_items(accs.drop_first());
        lemma_split_concat(b, i, e1, rest);
        lemma_dec_account(b, i, accs[0]);
        let i1 = i + e1.len();
        assert(accounts_encodable(accs.drop_first()));
        lemma_dec_account_items(b, i1, accs.drop_first());
        assert(seq![accs[0]] + accs.drop_first() =~= accs);
    }
}

pub proof fn lemma_dec_account_list(b: Seq<u8>, i: int, accs: Seq<AccountV>)
    requires
        accounts_encodable(accs),
        0 <= i,
        i + enc_account_list(accs).len() <= b.len(),
        b.subrange(i, i + enc_account_list(accs).len()) == enc_account_list(accs),
    ensures
        dec_account_list_at(b, i) == Some((accs, i + enc_account_list(accs).len())),
{
    broadcast use lemma_enc_u32_len;

    lemma_split_concat(b, i, enc_u32(accs.len() as u32), enc_account_items(accs));
    lemma_dec_u32(b, i, accs.len() as u32);
    lemma_dec_account_items(b, i + 4, accs);
}

/// The byte layout of the whole document: metadata, records, tags.
pub open spec fn enc_vault(v: VaultV) -> Seq<u8> {
    enc_metadata(v.metadata) + (enc_account_list(v.accounts) + enc_str_list(v.tags))
}

/// Reading a whole document at `i`.
pub open spec fn dec_vault_at(b: Seq<u8>, i: int) -> Option<(VaultV, int)> {
    match dec_metadata_at(b, i) {
        None => None,
        Some((metadata, i1)) => match dec_account_list_at(b, i1) {
            None => None,
            Some((accounts, i2)) => match dec_str_list_at(b, i2) {
                None => None,
                Some((tags, i3)) => Some((VaultV { metadata, accounts, tags }, i3)),
            },
        },
    }
}

/// Every part of the document fits the fixed-width prefixes of the layout.
pub open spec fn vault_encodable(v: VaultV) -> bool {
    metadata_encodable(v.metadata) && accounts_encodable(v.accounts) && strs_encodable(v.tags)
}

/// A document read from bytes: the layout must account for every byte.
pub open spec fn dec_document(b: Seq<u8>) -> Option<VaultV> {
    match dec_vault_at(b, 0) {
        None => None,
        Some((v, j)) => if j == b.len() {
            Some(v)
        } else {
            None
        },
    }
}

pub proof fn lemma_dec_vault(b: Seq<u8>, i: int, v: VaultV)
    requires
        vault_encodable(v),
        0 <= i,
        i + enc_vault(v).len() <= b.len(),
        b.subrange(i, i + enc_vault(v).len()) == enc_vault(v),
    ensures
        dec_vault_at(b, i) == Some((v, i + enc_vault(v).len())),
{
    let e1 = enc_metadata(v.metadata);
    let e2 = enc_account_list(v.accounts);
    let e3 = enc_str_list(v.tags);
    let r1 = e2 + e3;
    lemma_split_concat(b, i, e1, r1);
    lemma_dec_metadata(b, i, v.metadata);
    let i1 = i + e1.len();
    lemma_split_concat(b, i1, e2, e3);
    lemma_dec_account_list(b, i1, v.accounts);
    let i2 = i1 + e2.len();
    lemma_dec_str_list(b, i2, v.tags);
}

/// Decoding an encoded document yields that document: the round trip through
/// the byte layout loses nothing.
pub proof fn lemma_document_round_trip(v: VaultV)
    requires
        vault_encodable(v),
    ensures
        dec_document(enc_vault(v)) == Some(v),
{
    let b = enc_vault(v);
    assert(b.subrange(0, b.len() as int) =~= b);
    lemma_dec_vault(b, 0, v);
}

// ---------------------------------------------------------------------------
// Executable writers and readers: primitives
// ---------------------------------------------------------------------------
/// Relies on String::from_utf8: it succeeds exactly on valid UTF-8 and
/// returns the text whose UTF-8 encoding is the input.
#[verifier::external_body]
pub(crate) fn string_from_utf8(v: Vec<u8>) -> (r: Option<String>)
    ensures
        r matches Some(s) ==> encode_utf8(s@) == v@,
        r is Some <==> valid_utf8(v@),
{
    String::from_utf8(v).ok()
}

fn write_u32(out: &mut Vec<u8>, x: u32)
    ensures
        final(out)@ == old(out)@ + enc_u32(x),
{
    out.push((x & 0xff) as u8);
    out.push(((x >> 8) & 0xff) as u8);
    out.push(((x >> 16) & 0xff) as u8);
    out.push(((x >> 24) & 0xff) as u8);
    proof {
        reveal(enc_u32);
        assert(out@ =~= old(out)@ + enc_u32(x));
    }
}

fn write_u64(out: &mut Vec<u8>, x: u64)
    ensures
        final(out)@ == old(out)@ + enc_u64(x),
{
    out.push((x & 0xff) as u8);
    out.push(((x >> 8) & 0xff) as u8);
    out.push(((x >> 16) & 0xff) as u8);
    out.push(((x >> 24) & 0xff) as u8);
    out.push(((x >> 32) & 0xff) as u8);
    out.push(((x >> 40) & 0xff) as u8);
    out.push(((x >> 48) & 0xff) as u8);
    out.push(((x >> 56) & 0xff) as u8);
    proof {
        reveal(enc_u64);
        assert(out@ =~= old(out)@ + enc_u64(x));
    }
}

fn write_u128(out: &mut Vec<u8>, x: u128)
    ensures
        final(out)@ == old(out)@ + enc_u128(x),
{
    write_u64(out, x as u64);
    write_u64(out, (x >> 64) as u64);
    proof {
        assert(out@ =~= old(out)@ + enc_u128(x));
    }
}

fn write_bool(out: &mut Vec<u8>, v: bool)
    ensures
        final(out)@ == old(out)@ + enc_bool(v),
{
    out.push(if v { 1u8 } else { 0u8 });
    proof {
        assert(out@ =~= old(out)@ + enc_bool(v));
    }
}

fn write_usize(out: &mut Vec<u8>, x: usize)
    ensures
        final(out)@ == old(out)@ + enc_usize(x),
{
    write_u64(out, x as u64);
}

fn write_bytes(out: &mut Vec<u8>, s: &[u8])
    requires
        bytes_encodable(s@),
    ensures
        final(out)@ == old(out)@ + enc_bytes(s@),
{
    write_u32(out, s.len() as u32);
    out.extend_from_slice(s);
    proof {
        assert(out@ =~= old(out)@ + enc_bytes(s@));
    }
}

fn write_str(out: &mut Vec<u8>, s: &str)
    requires
        str_encodable(s@),
    ensures
        final(out)@ == old(out)@ + enc_str(s@),
{
    write_bytes(out, s.as_bytes());
}

fn read_u32(b: &Vec<u8>, pos: usize) -> (r: Option<(u32, usize)>)
    ensures
        r matches Some((x, q)) ==> dec_u32_at(b@, pos as int) == Some((x, q as int)),
        r is None ==> dec_u32_at(b@, pos as int) is None,
{
    if b.len() >= 4 && pos <= b.len() - 4 {
        let x = (b[pos] as u32) | ((b[pos + 1] as u32) << 8) | ((b[pos + 2] as u32) << 16) | ((
        b[pos + 3] as u32) << 24);
        Some((x, pos + 4))
    } else {
        None
    }
}

fn read_u64(b: &Vec<u8>, pos: usize) -> (r: Option<(u64, usize)>)
    ensures
        r matches Some((x, q)) ==> dec_u64_at(b@, pos as int) == Some((x, q as int)),
        r is None ==> dec_u64_at(b@, pos as int) is None,
{
    if b.len() >= 8 && pos <= b.len() - 8 {
        let x = (b[pos] as u64) | ((b[pos + 1] as u64) << 8) | ((b[pos + 2] as u64) << 16) | ((
        b[pos + 3] as u64) << 24) | ((b[pos + 4] as u64) << 32) | ((b[pos + 5] as u64) << 40) | ((
        b[pos + 6] as u64) << 48) | ((b[pos + 7] as u64) << 56);
        proof {
            let s = b@.subrange(pos as int, pos as int + 8);
            assert(s[0] == b@[pos as int]);
            assert(s[1] == b@[pos as int + 1]);
            assert(s[2] == b@[pos as int + 2]);
            assert(s[3] == b@[pos as int + 3]);
            assert(s[4] == b@[pos as int + 4]);
            assert(s[5] == b@[pos as int + 5]);
            assert(s[6] == b@[pos as int + 6]);
            assert(s[7] == b@[pos as int + 7]);
        }
        Some((x, pos + 8))
    } else {
        None
    }
}

fn read_u128(b: &Vec<u8>, pos: usize) -> (r: Option<(u128, usize)>)
    ensures
        r matches Some((x, q)) ==> dec_u128_at(b@, pos as int) == Some((x, q as int)),
        r is None ==> dec_u128_at(b@, pos as int) is None,
{
    match read_u64(b, pos) {
        None => None,
        Some((lo, p1)) => match read_u64(b, p1) {
            None => None,
            Some((hi, p2)) => Some(((lo as u128) | ((hi as u128) << 64), p2)),
        },
    }
}

fn read_bool(b: &Vec<u8>, pos: usize) -> (r: Option<(bool, usize)>)
    ensures
        r matches Some((v, q)) ==> dec_bool_at(b@, pos as int) == Some((v, q as int)),
        r is None ==> dec_bool_at(b@, pos as int) is None,
{
    if pos < b.len() {
        if b[pos] == 0 {
            Some((false, pos + 1))
        } else if b[pos] == 1 {
            Some((true, pos + 1))
        } else {
            None
        }
    } else {
        None
    }
}

fn read_usize(b: &Vec<u8>, pos: usize) -> (r: Option<(usize, usize)>)
    ensures
        r matches Some((x, q)) ==> dec_usize_at(b@, pos as int) == Some((x, q as int)),
        r is None ==> dec_usize_at(b@, pos as int) is None,
{
    match read_u64(b, pos) {
        None => None,
        Some((x, q)) => {
            if x <= usize::MAX as u64 {
                Some((x as usize, q))
            } else {
                None
            }
        },
    }
}

fn read_bytes(b: &Vec<u8>, pos: usize) -> (r: Option<(Vec<u8>, usize)>)
    ensures
        r matches Some((v, q)) ==> dec_bytes_at(b@, pos as int) == Some((v@, q as int)),
        r is None ==> dec_bytes_at(b@, pos as int) is None,
{
    match read_u32(b, pos) {
        None => None,
        Some((n, p1)) => {
            if n as u64 <= (b.len() - p1) as u64 {
                let end = p1 + n as usize;
                let v = vstd::slice::slice_to_vec(
                    vstd::slice::slice_subrange(b.as_slice(), p1, end),
                );
                Some((v, end))
            } else {
                None
            }
        },
    }
}

fn read_str(b: &Vec<u8>, pos: usize) -> (r: Option<(String, usize)>)
    ensures
        r matches Some((s, q)) ==> dec_str_at(b@, pos as int) == Some((s@, q as int)),
        r is None ==> dec_str_at(b@, pos as int) is None,
{
    match read_bytes(b, pos) {
        None => None,
        Some((bs, q)) => {
            let ghost bsv = bs@;
            match string_from_utf8(bs) {
                None => {
                    proof {
                        assert(!valid_utf8(bsv));
                    }
                    None
                },
                Some(s) => {
                    proof {
                        assert(encode_utf8(s@) == bsv);
                        assert(valid_utf8(bsv));
                        assert(decode_utf8(bsv) == s@);
                    }
                    Some((s, q))
                },
            }
        },
    }
}

// ---------------------------------------------------------------------------
// Executable writers and readers: composites
// ---------------------------------------------------------------------------
fn write_opt_str(out: &mut Vec<u8>, o: &Option<String>)
    requires
        opt_str_encodable(o.deep_view()),
    ensures
        final(out)@ == old(out)@ + enc_opt_str(o.deep_view()),
{
    match o {
        None => {
            out.push(0u8);
            proof {
                assert(out@ =~= old(out)@ + enc_opt_str(o.deep_view()));
            }
        },
        Some(s) => {
            out.push(1u8);
            write_str(out, s.as_str());
            proof {
                assert(out@ =~= old(out)@ + enc_opt_str(o.deep_view()));
            }
        },
    }
}

fn write_opt_u64(out: &mut Vec<u8>, o: &Option<u64>)
    ensures
        final(out)@ == old(out)@ + enc_opt_u64(*o),
{
    match o {
        None => {
            out.push(0u8);
            proof {
                assert(out@ =~= old(out)@ + enc_opt_u64(*o));
            }
        },
        Some(x) => {
            out.push(1u8);
            write_u64(out, *x);
            proof {
                assert(out@ =~= old(out)@ + enc_opt_u64(*o));
            }
        },
    }
}

fn write_account_type(out: &mut Vec<u8>, t: &AccountType)
    ensures
        final(out)@ == old(out)@ + enc_account_type(*t),
{
    out.push(t.tag());
    proof {
        assert(out@ =~= old(out)@ + enc_account_type(*t));
    }
}

fn write_options(out: &mut Vec<u8>, o: &PasswordOptions)
    ensures
        final(out)@ == old(out)@ + enc_options(*o),
{
    write_usize(out, o.length);
    write_bool(out, o.include_uppercase);
    write_bool(out, o.include_lowercase);
    write_bool(out, o.include_numbers);
    write_bool(out, o.include_special);
    write_bool(out, o.exclude_similar);
    write_bool(out, o.exclude_ambiguous);
    proof {
        assert(out@ =~= old(out)@ + enc_options(*o));
    }
}

fn write_settings(out: &mut Vec<u8>, s: &VaultSettings)
    ensures
        final(out)@ == old(out)@ + enc_settings(*s),
{
    write_u32(out, s.auto_lock_timeout);
    write_bool(out, s.require_confirmation);
    write_bool(out, s.auto_clear_clipboard);
    write_u32(out, s.clipboard_timeout);
    write_bool(out, s.show_strength_indicators);
    write_options(out, &s.default_password_options);
    proof {
        assert(out@ =~= old(out)@ + enc_settings(*s));
    }
}

fn write_metadata(out: &mut Vec<u8>, m: &VaultMetadata)
    requires
        metadata_encodable(m@),
    ensures
        final(out)@ == old(out)@ + enc_metadata(m@),
{
    write_str(out, m.version.as_str());
    write_str(out, m.email.as_str());
    write_u64(out, m.created_at);
    write_u64(out, m.last_modified);
    write_usize(out, m.account_count);
    write_settings(out, &m.settings);
    proof {
        assert(out@ =~= old(out)@ + enc_metadata(m@));
    }
}

/// Appending one more string extends the encoded items by that string.
proof fn lemma_enc_str_items_push(ss: Seq<Seq<char>>, s: Seq<char>)
    ensures
        enc_str_items(ss.push(s)) == enc_str_items(ss) + enc_str(s),
    decreases ss.len(),
{
    if ss.len() == 0 {
        assert(ss.push(s)[0] == s);
        assert(ss.push(s).drop_first() =~= Seq::<Seq<char>>::empty());
        assert(enc_str_items(ss.push(s)) == enc_str(s) + enc_str_items(
            Seq::<Seq<char>>::empty(),
        ));
        assert(enc_str_items(Seq::<Seq<char>>::empty()) == Seq::<u8>::empty());
        assert(enc_str_items(ss.push(s)) =~= enc_str_items(ss) + enc_str(s));
    } else {
        assert(ss.push(s)[0] == ss[0]);
        assert(ss.push(s).drop_first() =~= ss.drop_first().push(s));
        lemma_enc_str_items_push(ss.drop_first(), s);
        assert(enc_str_items(ss.push(s)) == enc_str(ss[0]) + (enc_str_items(ss.drop_first())
            + enc_str(s)));
        assert(enc_str_items(ss.push(s)) =~= enc_str_items(ss) + enc_str(s));
    }
}

fn write_str_list(out: &mut Vec<u8>, ss: &Vec<String>)
    requires
        strs_encodable(ss.deep_view()),
    ensures
        final(out)@ == old(out)@ + enc_str_list(ss.deep_view()),
{
    let ghost dv = ss.deep_view();
    write_u32(out, ss.len() as u32);
    let ghost base = out@;
    let mut i: usize = 0;
    while i < ss.len()
        invariant
            i <= ss@.len(),
            dv == ss.deep_view(),
            dv.len() == ss@.len(),
            strs_encodable(dv),
            out@ == base + enc_str_items(dv.subrange(0, i as int)),
        decreases ss@.len() - i,
    {
        let ghost prefix = dv.subrange(0, i as int);
        proof {
            assert(dv[i as int] == ss@[i as int]@);
            assert(str_encodable(dv[i as int]));
        }
        write_str(out, ss[i].as_str());
        proof {
            assert(dv.subrange(0, i + 1) =~= prefix.push(dv[i as int]));
            lemma_enc_str_items_push(prefix, dv[i as int]);
            assert(out@ =~= base + enc_str_items(dv.subrange(0, i + 1)));
        }
        i = i + 1;
    }
    proof {
        assert(dv.subrange(0, dv.len() as int) =~= dv);
        assert(out@ =~= old(out)@ + enc_str_list(dv));
    }
}

/// Concatenation of byte sequences is associative.
proof fn lemma_assoc(a: Seq<u8>, b: Seq<u8>, c: Seq<u8>)
    ensures
        (a + b) + c == a + (b + c),
{
    assert((a + b) + c =~= a + (b + c));
}

fn write_account(out: &mut Vec<u8>, a: &Account)
    requires
        account_encodable(a@),
    ensures
        final(out)@ == old(out)@ + enc_account(a@),
{
    let ghost o0 = out@;
    write_u128(out, a.id);
    let ghost s1 = out@;
    write_str(out, a.name.as_str());
    let ghost s2 = out@;
    write_account_type(out, &a.account_type);
    let ghost s3 = out@;
    write_opt_str(out, &a.url);
    let ghost s4 = out@;
    write_opt_str(out, &a.username);
    let ghost s5 = out@;
    write_str(out, a.password.as_str());
    let ghost s6 = out@;
    write_opt_str(out, &a.notes);
    let ghost s7 = out@;
    write_str_list(out, &a.tags);
    let ghost s8 = out@;
    write_u64(out, a.created_at);
    let ghost s9 = out@;
    write_u64(out, a.updated_at);
    let ghost s10 = out@;
    write_opt_u64(out, &a.last_accessed);
    proof {
        let e1 = enc_u128(a@.id);
        let e2 = enc_str(a@.name);
        let e3 = enc_account_type(a@.account_type);
        let e4 = enc_opt_str(a@.url);
        let e5 = enc_opt_str(a@.username);
        let e6 = enc_str(a@.password);
        let e7 = enc_opt_str(a@.notes);
        let e8 = enc_str_list(a@.tags);
        let e9 = enc_u64(a@.created_at);
        let e10 = enc_u64(a@.updated_at);
        let t11 = enc_opt_u64(a@.last_accessed);
        let t10 = e10 + t11;
        let t9 = e9 + t10;
        let t8 = e8 + t9;
        let t7 = e7 + t8;
        let t6 = e6 + t7;
        let t5 = e5 + t6;
        let t4 = e4 + t5;
        let t3 = e3 + t4;
        let t2 = e2 + t3;
        let t1 = e1 + t2;
        lemma_assoc(s9, e10, t11);
        assert(out@ == s9 + t10);
        lemma_assoc(s8, e9, t10);
        assert(out@ == s8 + t9);
        lemma_assoc(s7, e8, t9);
        assert(out@ == s7 + t8);
        lemma_assoc(s6, e7, t8);
        assert(out@ == s6 + t7);
        lemma_assoc(s5, e6, t7);
        assert(out@ == s5 + t6);
        lemma_assoc(s4, e5, t6);
        assert(out@ == s4 + t5);
        lemma_assoc(s3, e4, t5);
        assert(out@ == s3 + t4);
        lemma_assoc(s2, e3, t4);
        assert(out@ == s2 + t3);
        lemma_assoc(s1, e2, t3);
        assert(out@ == s1 + t2);
        lemma_assoc(o0, e1, t2);
        assert(out@ == o0 + t1);
        reveal(enc_account);
        assert(t1 == enc_account(a@));
    }
}

/// Appending one more record extends the encoded items by that record.
proof fn lemma_enc_account_items_push(accs: Seq<AccountV>, a: AccountV)
    ensures
        enc_account_items(accs.push(a)) == enc_account_items(accs) + enc_account(a),
    decreases accs.len(),
{
    if accs.len() == 0 {
        assert(accs.push(a)[0] == a);
        assert(accs.push(a).drop_first() =~= Seq::<AccountV>::empty());
        assert(enc_account_items(accs.push(a)) == enc_account(a) + enc_account_items(
            Seq::<AccountV>::empty(),
        ));
        assert(enc_account_items(Seq::<AccountV>::empty()) == Seq::<u8>::empty());
        assert(enc_account_items(accs.push(a)) =~= enc_account_items(accs) + enc_account(a));
    } else {
        assert(accs.push(a)[0] == accs[0]);
        assert(accs.push(a).drop_first() =~= accs.drop_first().push(a));
        lemma_enc_account_items_push(accs.drop_first(), a);
        assert(enc_account_items(accs.push(a)) == enc_account(accs[0]) + (enc_account_items(
            accs.drop_first(),
        ) + enc_account(a)));
        assert(enc_account_items(accs.push(a)) =~= enc_account_items(accs) + enc_account(a));
    }
}

fn write_account_list(out: &mut Vec<u8>, accs: &Vec<Account>)
    requires
        accounts_encodable(accs.deep_view()),
    ensures
        final(out)@ == old(out)@ + enc_account_list(accs.deep_view()),
{
    let ghost dv = accs.deep_view();
    write_u32(out, accs.len() as u32);
    let ghost base = out@;
    let mut i: usize = 0;
    while i < accs.len()
        invariant
            i <= accs@.len(),
            dv == accs.deep_view(),
            dv.len() == accs@.len(),
            accounts_encodable(dv),
            out@ == base + enc_account_items(dv.subrange(0, i as int)),
        decreases accs@.len() - i,
    {
        let ghost prefix = dv.subrange(0, i as int);
        proof {
            assert(dv[i as int] == accs@[i as int]@);
            assert(account_encodable(dv[i as int]));
        }
        write_account(out, &accs[i]);
        proof {
            assert(dv.subrange(0, i + 1) =~= prefix.push(dv[i as int]));
            lemma_enc_account_items_push(prefix, dv[i as int]);
            assert(out@ =~= base + enc_account_items(dv.subrange(0, i + 1)));
        }
        i = i + 1;
    }
    proof {
        assert(dv.subrange(0, dv.len() as int) =~= dv);
        assert(out@ =~= old(out)@ + enc_account_list(dv));
    }
}

fn read_opt_str(b: &Vec<u8>, pos: usize) -> (r: Option<(Option<String>, usize)>)
    ensures
        r matches Some((o, q)) ==> dec_opt_str_at(b@, pos as int) == Some((o.deep_view(), q as int)),
        r is None ==> dec_opt_str_at(b@, pos as int) is None,
{
    if pos < b.len() {
        if b[pos] == 0 {
            Some((None, pos + 1))
        } else if b[pos] == 1 {
            match read_str(b, pos + 1) {
                None => None,
                Some((s, q)) => Some((Some(s), q)),
            }
        } else {
            None
        }
    } else {
        None
    }
}

fn read_opt_u64(b: &Vec<u8>, pos: usize) -> (r: Option<(Option<u64>, usize)>)
    ensures
        r matches Some((o, q)) ==> dec_opt_u64_at(b@, pos as int) == Some((o, q as int)),
        r is None ==> dec_opt_u64_at(b@, pos as int) is None,
{
    if pos < b.len() {
        if b[pos] == 0 {
            Some((None, pos + 1))
        } else if b[pos] == 1 {
            match read_u64(b, pos + 1) {
                None => None,
                Some((x, q)) => Some((Some(x), q)),
            }
        } else {
            None
        }
    } else {
        None
    }
}

fn read_account_type(b: &Vec<u8>, pos: usize) -> (r: Option<(AccountType, usize)>)
    ensures
        r matches Some((t, q)) ==> dec_account_type_at(b@, pos as int) == Some((t, q as int)),
        r is None ==> dec_account_type_at(b@, pos as int) is None,
{
    if pos < b.len() {
        match AccountType::from_tag(b[pos]) {
            None => None,
            Some(t) => Some((t, pos + 1)),
        }
    } else {
        None
    }
}

fn read_options(b: &Vec<u8>, pos: usize) -> (r: Option<(PasswordOptions, usize)>)
    ensures
        r matches Some((o, q)) ==> dec_options_at(b@, pos as int) == Some((o, q as int)),
        r is None ==> dec_options_at(b@, pos as int) is None,
{
    match read_usize(b, pos) {
        None => None,
        Some((length, p1)) => match read_bool(b, p1) {
            None => None,
            Some((include_uppercase, p2)) => match read_bool(b, p2) {
                None => None,
                Some((include_lowercase, p3)) => match read_bool(b, p3) {
                    None => None,
                    Some((include_numbers, p4)) => match read_bool(b, p4) {
                        None => None,
                        Some((include_special, p5)) => match read_bool(b, p5) {
                            None => None,
                            Some((exclude_similar, p6)) => match read_bool(b, p6) {
                                None => None,
                                Some((exclude_ambiguous, p7)) => Some(
                                    (
                                        PasswordOptions {
                                            length,
                                            include_uppercase,
                                            include_lowercase,
                                            include_numbers,
                                            include_special,
                                            exclude_similar,
                                            exclude_ambiguous,
                                        },
                                        p7,
                                    ),
                                ),
                            },
                        },
                    },
                },
            },
        },
    }
}

fn read_settings(b: &Vec<u8>, pos: usize) -> (r: Option<(VaultSettings, usize)>)
    ensures
        r matches Some((s, q)) ==> dec_settings_at(b@, pos as int) == Some((s, q as int)),
        r is None ==> dec_settings_at(b@, pos as int) is None,
{
    match read_u32(b, pos) {
        None => None,
        Some((auto_lock_timeout, p1)) => match read_bool(b, p1) {
            None => None,
            Some((require_confirmation, p2)) => match read_bool(b, p2) {
                None => None,
                Some((auto_clear_clipboard, p3)) => match read_u32(b, p3) {
                    None => None,
                    Some((clipboard_timeout, p4)) => match read_bool(b, p4) {
                        None => None,
                        Some((show_strength_indicators, p5)) => match read_options(b, p5) {
                            None => None,
                            Some((default_password_options, p6)) => Some(
                                (
                                    VaultSettings {
                                        auto_lock_timeout,
                                        require_confirmation,
                                        auto_clear_clipboard,
                                        clipboard_timeout,
                                        show_strength_indicators,
                                        default_password_options,
                                    },
                                    p6,
                                ),
                            ),
                        },
                    },
                },
            },
        },
    }
}

fn read_metadata(b: &Vec<u8>, pos: usize) -> (r: Option<(VaultMetadata, usize)>)
    ensures
        r matches Some((m, q)) ==> dec_metadata_at(b@, pos as int) == Some((m@, q as int)),
        r is None ==> dec_metadata_at(b@, pos as int) is None,
{
    match read_str(b, pos) {
        None => None,
        Some((version, p1)) => match read_str(b, p1) {
            None => None,
            Some((email, p2)) => match read_u64(b, p2) {
                None => None,
                Some((created_at, p3)) => match read_u64(b, p3) {
                    None => None,
                    Some((last_modified, p4)) => match read_usize(b, p4) {
                        None => None,
                        Some((account_count, p5)) => match read_settings(b, p5) {
                            None => None,
                            Some((settings, p6)) => Some(
                                (
                                    VaultMetadata {
                                        version,
                                        email,
                                        created_at,
                                        last_modified,
                                        account_count,
                                        settings,
                                    },
                                    p6,
                                ),
                            ),
                        },
                    },
                },
            },
        },
    }
}

fn read_str_list(b: &Vec<u8>, pos: usize) -> (r: Option<(Vec<String>, usize)>)
    ensures
        r matches Some((ss, q)) ==> dec_str_list_at(b@, pos as int) == Some(
            (ss.deep_view(), q as int),
        ),
        r is None ==> dec_str_list_at(b@, pos as int) is None,
{
    match read_u32(b, pos) {
        None => None,
        Some((n, start)) => {
            let mut out: Vec<String> = Vec::new();
            let mut cur: usize = start;
            let mut rem: u32 = n;
            loop
                invariant
                    rem <= n,
                    dec_u32_at(b@, pos as int) == Some((n, start as int)),
                    dec_str_items_at(b@, start as int, n as int) == (match dec_str_items_at(
                        b@,
                        cur as int,
                        rem as int,
                    ) {
                        None => None::<(Seq<Seq<char>>, int)>,
                        Some((ss, k)) => Some((out.deep_view() + ss, k)),
                    }),
                decreases rem,
            {
                if rem == 0 {
                    proof {
                        assert(dec_str_items_at(b@, cur as int, 0) == Some(
                            (Seq::<Seq<char>>::empty(), cur as int),
                        ));
                        assert(out.deep_view() + Seq::<Seq<char>>::empty() =~= out.deep_view());
                    }
                    return Some((out, cur));
                }
                let ghost out0 = out.deep_view();
                match read_str(b, cur) {
                    None => {
                        return None;
                    },
                    Some((s, q)) => {
                        out.push(s);
                        proof {
                            assert(out.deep_view() =~= out0.push(s@));
                            match dec_str_items_at(b@, q as int, rem - 1) {
                                None => {},
                                Some((ss2, k2)) => {
                                    assert(out0.push(s@) + ss2 =~= out0 + (seq![s@] + ss2));
                                },
                            }
                        }
                        cur = q;
                        rem = rem - 1;
                    },
                }
            }
        },
    }
}

fn read_account(b: &Vec<u8>, pos: usize) -> (r: Option<(Account, usize)>)
    ensures
        r matches Some((a, q)) ==> dec_account_at(b@, pos as int) == Some((a@, q as int)),
        r is None ==> dec_account_at(b@, pos as int) is None,
{
    proof {
        reveal(dec_account_at);
    }
    match read_u128(b, pos) {
        None => None,
        Some((id, p1)) => match read_str(b, p1) {
            None => None,
            Some((name, p2)) => match read_account_type(b, p2) {
                None => None,
                Some((account_type, p3)) => match read_opt_str(b, p3) {
                    None => None,
                    Some((url, p4)) => match read_opt_str(b, p4) {
                        None => None,
                        Some((username, p5)) => match read_str(b, p5) {
                            None => None,
                            Some((password, p6)) => match read_opt_str(b, p6) {
                                None => None,
                                Some((notes, p7)) => match read_str_list(b, p7) {
                                    None => None,
                                    Some((tags, p8)) => match read_u64(b, p8) {
                                        None => None,
                                        Some((created_at, p9)) => match read_u64(b, p9) {
                                            None => None,
                                            Some((updated_at, p10)) => match read_opt_u64(
                                                b,
                                                p10,
                                            ) {
                                                None => None,
                                                Some((last_accessed, p11)) => Some(
                                                    (
                                                        Account {
                                                            id,
                                                            name,
                                                            account_type,
                                                            url,
                                                            username,
                                                            password,
                                                            notes,
                                                            tags,
                                                            created_at,
                                                            updated_at,
                                                            last_accessed,
                                                        },
                                                        p11,
                                                    ),
                                                ),
                                            },
                                        },
                                    },
                                },
                            },
                        },
                    },
                },
            },
        },
    }
}

fn read_account_list(b: &Vec<u8>, pos: usize) -> (r: Option<(Vec<Account>, usize)>)
    ensures
        r matches Some((accs, q)) ==> dec_account_list_at(b@, pos as int) == Some(
            (accs.deep_view(), q as int),
        ),
        r is None ==> dec_account_list_at(b@, pos as int) is None,
{
    match read_u32(b, pos) {
        None => None,
        Some((n, start)) => {
            let mut out: Vec<Account> = Vec::new();
            let mut cur: usize = start;
            let mut rem: u32 = n;
            loop
                invariant
                    rem <= n,
                    dec_u32_at(b@, pos as int) == Some((n, start as int)),
                    dec_account_items_at(b@, start as int, n as int) == (match dec_account_items_at(
                        b@,
                        cur as int,
                        rem as int,
                    ) {
                        None => None::<(Seq<AccountV>, int)>,
                        Some((ss, k)) => Some((out.deep_view() + ss, k)),
                    }),
                decreases rem,
            {
                if rem == 0 {
                    proof {
                        assert(dec_account_items_at(b@, cur as int, 0) == Some(
                            (Seq::<AccountV>::empty(), cur as int),
                        ));
                        assert(out.deep_view() + Seq::<AccountV>::empty() =~= out.deep_view());
                    }
                    return Some((out, cur));
                }
                let ghost out0 = out.deep_view();
                match read_account(b, cur) {
                    None => {
                        return None;
                    },
                    Some((a, q)) => {
                        let ghost av = a@;
                        out.push(a);
                        proof {
                            assert(out.deep_view() =~= out0.push(av));
                            match dec_account_items_at(b@, q as int, rem - 1) {
                                None => {},
                                Some((ss2, k2)) => {
                                    assert(out0.push(av) + ss2 =~= out0 + (seq![av] + ss2));
                                },
                            }
                        }
                        cur = q;
                        rem = rem - 1;
                    },
                }
            }
        },
    }
}

// ---------------------------------------------------------------------------
// Encodability checks and the document entry points
// ---------------------------------------------------------------------------
fn check_str(s: &str) -> (r: bool)
    ensures
        r == str_encodable(s@),
{
    s.as_bytes().len() as u64 <= u32::MAX as u64
}

fn check_opt_str(o: &Option<String>) -> (r: bool)
    ensures
        r == opt_str_encodable(o.deep_view()),
{
    match o {
        None => true,
        Some(s) => check_str(s.as_str()),
    }
}

fn check_str_list(ss: &Vec<String>) -> (r: bool)
    ensures
        r == strs_encodable(ss.deep_view()),
{
    let ghost dv = ss.deep_view();
    if !(ss.len() as u64 <= u32::MAX as u64) {
        return false;
    }
    let mut i: usize = 0;
    while i < ss.len()
        invariant
            i <= ss@.len(),
            dv == ss.deep_view(),
            dv.len() == ss@.len(),
            dv.len() <= u32::MAX,
            forall|k: int| 0 <= k < i ==> str_encodable(#[trigger] dv[k]),
        decreases ss@.len() - i,
    {
        if !check_str(ss[i].as_str()) {
            proof {
                assert(dv[i as int] == ss@[i as int]@);
            }
            return false;
        }
        proof {
            assert(dv[i as int] == ss@[i as int]@);
        }
        i = i + 1;
    }
    true
}

fn check_account(a: &Account) -> (r: bool)
    ensures
        r == account_encodable(a@),
{
    check_str(a.name.as_str()) && check_opt_str(&a.url) && check_opt_str(&a.username) && check_str(
        a.password.as_str(),
    ) && check_opt_str(&a.notes) && check_str_list(&a.tags)
}

fn check_accounts(accs: &Vec<Account>) -> (r: bool)
    ensures
        r == accounts_encodable(accs.deep_view()),
{
    let ghost dv = accs.deep_view();
    if !(accs.len() as u64 <= u32::MAX as u64) {
        return false;
    }
    let mut i: usize = 0;
    while i < accs.len()
        invariant
            i <= accs@.len(),
            dv == accs.deep_view(),
            dv.len() == accs@.len(),
            dv.len() <= u32::MAX,
            forall|k: int| 0 <= k < i ==> account_encodable(#[trigger] dv[k]),
        decreases accs@.len() - i,
    {
        if !check_account(&accs[i]) {
            proof {
                assert(dv[i as int] == accs@[i as int]@);
            }
            return false;
        }
        proof {
            assert(dv[i as int] == accs@[i as int]@);
        }
        i = i + 1;
    }
    true
}

/// Whether every part of the document fits the layout's length prefixes, so
/// that it can be written without loss.
pub fn check_vault_encodable(v: &Vault) -> (r: bool)
    ensures
        r == vault_encodable(v@),
{
    check_str(v.metadata.version.as_str()) && check_str(v.metadata.email.as_str())
        && check_accounts(&v.accounts) && check_str_list(&v.tags)
}

/// Serialize the document into its byte layout.
///
/// Succeeds exactly when every part of the document fits the layout's length
/// prefixes; a document over those limits is refused as a serialization error.
pub fn encode_document(v: &Vault) -> (r: Result<Vec<u8>, crate::PassManError>)
    ensures
        r matches Ok(bytes) ==> vault_encodable(v@) && bytes@ == enc_vault(v@),
        r is Err ==> !vault_encodable(v@) && (r matches Err(e) && e
            == crate::PassManError::SerializationError),
{
    if !check_vault_encodable(v) {
        return Err(crate::PassManError::SerializationError);
    }
    let mut out: Vec<u8> = Vec::new();
    write_metadata(&mut out, &v.metadata);
    write_account_list(&mut out, &v.accounts);
    write_str_list(&mut out, &v.tags);
    proof {
        assert(out@ =~= enc_vault(v@));
    }
    Ok(out)
}

/// Deserialize a document from its byte layout.
///
/// Fails with a serialization error when the bytes do not spell a complete
/// document, or when the document they spell is not well formed (duplicate
/// record identifiers, or a stored record count that does not match).
pub fn decode_document(b: &Vec<u8>) -> (r: Result<Vault, crate::PassManError>)
    ensures
        r matches Ok(v) ==> dec_document(b@) == Some(v@) && v.wf(),
        r is Err ==> (r matches Err(e) && e == crate::PassManError::SerializationError) && (match
            dec_document(b@) {
            None => true,
            Some(d) => !wf_doc(d),
        }),
{
    let parsed = match read_metadata(b, 0) {
        None => None,
        Some((metadata, p1)) => match read_account_list(b, p1) {
            None => None,
            Some((accounts, p2)) => match read_str_list(b, p2) {
                None => None,
                Some((tags, p3)) => Some((Vault { metadata, accounts, tags }, p3)),
            },
        },
    };
    match parsed {
        None => Err(crate::PassManError::SerializationError),
        Some((v, end)) => {
            if end != b.len() {
                return Err(crate::PassManError::SerializationError);
            }
            if v.check_wf() {
                Ok(v)
            } else {
                Err(crate::PassManError::SerializationError)
            }
        },
    }
}

} // verus!
