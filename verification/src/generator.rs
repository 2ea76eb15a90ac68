//! Password generation and strength scoring.
//!
//! Generation draws random characters from a character set built from the
//! caller's options; randomness comes from the thread-local generator behind
//! a trusted boundary, and everything around each draw — the character set,
//! the length, where the characters may come from — is verified. Scoring is
//! a fixed formula over the password's bytes.
use vstd::prelude::*;
use vstd::utf8::encode_utf8;
use crate::PassManError;
use crate::models::{PasswordOptions, lemma_filter_step};
use crate::auth::{is_digit_byte, is_lower_byte, is_special_byte, is_upper_byte};

verus! {

/// The rand thread-local generator, used opaquely.
#[verifier::external_type_specification]
#[verifier::external_body]
pub struct ExThreadRng(rand::rngs::ThreadRng);

/// Relies on rand::thread_rng for a handle to the thread's generator.
#[verifier::external_body]
fn make_rng() -> rand::rngs::ThreadRng {
    rand::thread_rng()
}

/// Relies on rand's Rng::gen_range over `0..bound`: the result is below
/// `bound` (the range is nonempty, so the call cannot panic).
#[verifier::external_body]
fn gen_below(rng: &mut rand::rngs::ThreadRng, bound: usize) -> (r: usize)
    requires
        bound >= 1,
    ensures
        r < bound,
{
    rand::Rng::gen_range(rng, 0..bound)
}

/// Relies on String::push: it appends exactly the given character.
#[verifier::external_body]
fn push_char(s: &mut String, c: char)
    ensures
        final(s)@ == old(s)@ + seq![c],
{
    s.push(c);
}

/// The uppercase candidates.
pub open spec fn upper_bytes() -> Seq<u8> {
    encode_utf8("ABCDEFGHIJKLMNOPQRSTUVWXYZ"@)
}

/// The lowercase candidates.
pub open spec fn lower_bytes() -> Seq<u8> {
    encode_utf8("abcdefghijklmnopqrstuvwxyz"@)
}

/// The digit candidates.
pub open spec fn number_bytes() -> Seq<u8> {
    encode_utf8("0123456789"@)
}

/// The special-character candidates.
pub open spec fn special_bytes() -> Seq<u8> {
    encode_utf8("!@#$%^&*()_+-=[]{}|;:,.<>?"@)
}

/// Characters that are easily confused with one another.
pub open spec fn similar_bytes() -> Seq<u8> {
    encode_utf8("0OIl1|"@)
}

/// Characters that are ambiguous in some contexts.
pub open spec fn ambiguous_bytes() -> Seq<u8> {
    encode_utf8("{}[]()\\/~,;.<>"@)
}

/// The candidates of every enabled character class, before exclusions.
pub open spec fn base_charset(o: PasswordOptions) -> Seq<u8> {
    (if o.include_uppercase {
        upper_bytes()
    } else {
        Seq::<u8>::empty()
    }) + (if o.include_lowercase {
        lower_bytes()
    } else {
        Seq::<u8>::empty()
    }) + (if o.include_numbers {
        number_bytes()
    } else {
        Seq::<u8>::empty()
    }) + (if o.include_special {
        special_bytes()
    } else {
        Seq::<u8>::empty()
    })
}

/// The candidates actually drawn from: the enabled classes, with the
/// excluded characters filtered out.
pub open spec fn charset_spec(o: PasswordOptions) -> Seq<u8> {
    let base = base_charset(o);
    let without_similar = if o.exclude_similar {
        base.filter(|c: u8| !similar_bytes().contains(c))
    } else {
        base
    };
    if o.exclude_ambiguous {
        without_similar.filter(|c: u8| !ambiguous_bytes().contains(c))
    } else {
        without_similar
    }
}

/// Options are usable: a positive length within bounds and at least one
/// enabled character class.
pub open spec fn options_valid(o: PasswordOptions) -> bool {
    &&& o.length >= 1
    &&& o.length <= 1000
    &&& (o.include_uppercase || o.include_lowercase || o.include_numbers || o.include_special)
}

/// How many character classes are enabled.
pub open spec fn class_count(o: PasswordOptions) -> int {
    (if o.include_uppercase {
        1int
    } else {
        0int
    }) + (if o.include_lowercase {
        1int
    } else {
        0int
    }) + (if o.include_numbers {
        1int
    } else {
        0int
    }) + (if o.include_special {
        1int
    } else {
        0int
    })
}

/// The length of a generated password: the requested length, except that one
/// character of every enabled class is always placed, even when the
/// requested length is smaller than the number of enabled classes.
pub open spec fn generated_len(o: PasswordOptions) -> int {
    if o.length >= class_count(o) {
        o.length as int
    } else {
        class_count(o)
    }
}

/// Filter a byte vector by exclusion of `excluded`, keeping order.
fn filter_out(v: &Vec<u8>, excluded: &[u8]) -> (r: Vec<u8>)
    ensures
        r@ == v@.filter(|c: u8| !excluded@.contains(c)),
        forall|i: int| 0 <= i < r@.len() ==> v@.contains(#[trigger] r@[i]),
{
    let ghost pred = |c: u8| !excluded@.contains(c);
    let mut out: Vec<u8> = Vec::new();
    let mut i: usize = 0;
    while i < v.len()
        invariant
            i <= v@.len(),
            out@ == v@.subrange(0, i as int).filter(pred),
            pred == (|c: u8| !excluded@.contains(c)),
            forall|k: int| 0 <= k < out@.len() ==> v@.contains(#[trigger] out@[k]),
        decreases v@.len() - i,
    {
        let ghost out0 = out@;
        let c = v[i];
        let mut hit = false;
        let mut j: usize = 0;
        while j < excluded.len()
            invariant
                j <= excluded@.len(),
                hit == exists|k: int| 0 <= k < j && excluded@[k] == c,
            decreases excluded@.len() - j,
        {
            if excluded[j] == c {
                hit = true;
            }
            j = j + 1;
        }
        if !hit {
            out.push(c);
        }
        proof {
            lemma_filter_step(v@, i as int, pred);
            assert(hit == excluded@.contains(c));
            if !hit {
                assert(out@ =~= out0.push(c));
            }
        }
        i = i + 1;
    }
    proof {
        assert(v@.subrange(0, v@.len() as int) =~= v@);
    }
    out
}

/// Password generator; holds the thread's random generator.
pub struct PasswordGenerator {
    /// Source of randomness.
    rng: rand::rngs::ThreadRng,
}

impl PasswordGenerator {
    /// A generator drawing from the thread's randomness.
    pub fn new() -> PasswordGenerator {
        PasswordGenerator { rng: make_rng() }
    }

    /// Check the options: the length must be positive and at most 1000, and
    /// at least one character class must be enabled.
    pub fn validate_options(&self, options: &PasswordOptions) -> (r: Result<(), PassManError>)
        ensures
            r is Ok <==> options_valid(*options),
            r matches Err(e) ==> e == PassManError::InvalidInput,
    {
        if options.length == 0 {
            return Err(PassManError::InvalidInput);
        }
        if options.length > 1000 {
            return Err(PassManError::InvalidInput);
        }
        if !options.include_uppercase && !options.include_lowercase && !options.include_numbers
            && !options.include_special {
            return Err(PassManError::InvalidInput);
        }
        Ok(())
    }

    /// Build the candidate set for the options: the enabled classes in their
    /// fixed order, minus the excluded characters.
    fn build_charset(&self, options: &PasswordOptions) -> (r: Vec<u8>)
        ensures
            r@ == charset_spec(*options),
            forall|i: int| 0 <= i < r@.len() ==> base_charset(*options).contains(#[trigger] r@[i]),
    {
        let mut base: Vec<u8> = Vec::new();
        if options.include_uppercase {
            base.extend_from_slice("ABCDEFGHIJKLMNOPQRSTUVWXYZ".as_bytes());
        }
        if options.include_lowercase {
            base.extend_from_slice("abcdefghijklmnopqrstuvwxyz".as_bytes());
        }
        if options.include_numbers {
            base.extend_from_slice("0123456789".as_bytes());
        }
        if options.include_special {
            base.extend_from_slice("!@#$%^&*()_+-=[]{}|;:,.<>?".as_bytes());
        }
        proof {
            assert(base@ =~= base_charset(*options));
        }
        let ghost basev = base@;
        let step1 = if options.exclude_similar {
            filter_out(&base, "0OIl1|".as_bytes())
        } else {
            base
        };
        proof {
            assert(forall|i: int|
                0 <= i < step1@.len() ==> basev.contains(#[trigger] step1@[i]));
        }
        let step2 = if options.exclude_ambiguous {
            filter_out(&step1, "{}[]()\\/~,;.<>".as_bytes())
        } else {
            step1
        };
        proof {
            assert(step2@ == charset_spec(*options));
            assert forall|i: int| 0 <= i < step2@.len() implies basev.contains(
                #[trigger] step2@[i],
            ) by {
                if options.exclude_ambiguous {
                    assert(step1@.contains(step2@[i]));
                    let w = choose|w: int| 0 <= w < step1@.len() && step1@[w] == step2@[i];
                    assert(basev.contains(step1@[w]));
                }
            }
        }
        step2
    }

    /// Draw one byte of `set` at random.
    fn pick_from(&mut self, set: &[u8]) -> (r: u8)
        requires
            set@.len() >= 1,
        ensures
            set@.contains(r),
    {
        let i = gen_below(&mut self.rng, set.len());
        set[i]
    }

    /// Generate a password for the options.
    ///
    /// Succeeds exactly when the options are valid and leave at least one
    /// candidate character. One character of every enabled class is placed,
    /// the rest are drawn from the candidate set, and the whole is shuffled;
    /// every character of the result belongs to an enabled class, at least
    /// one character of each enabled class set occurs, and the result has
    /// the requested length (or one character per enabled class, when the
    /// requested length is smaller).
    pub fn generate(&mut self, options: &PasswordOptions) -> (r: Result<String, PassManError>)
        ensures
            r is Ok <==> options_valid(*options) && charset_spec(*options).len() >= 1,
            r matches Ok(p) ==> {
                &&& encode_utf8(p@).len() == generated_len(*options)
                &&& forall|i: int|
                    0 <= i < encode_utf8(p@).len() ==> base_charset(*options).contains(
                        #[trigger] encode_utf8(p@)[i],
                    )
                &&& options.include_uppercase ==> exists|x: u8|
                    upper_bytes().contains(x) && encode_utf8(p@).contains(x)
                &&& options.include_lowercase ==> exists|x: u8|
                    lower_bytes().contains(x) && encode_utf8(p@).contains(x)
                &&& options.include_numbers ==> exists|x: u8|
                    number_bytes().contains(x) && encode_utf8(p@).contains(x)
                &&& options.include_special ==> exists|x: u8|
                    special_bytes().contains(x) && encode_utf8(p@).contains(x)
            },
            r matches Err(e) ==> e == PassManError::InvalidInput,
    {
        if let Err(e) = self.validate_options(options) {
            return Err(e);
        }
        let charset = self.build_charset(options);
        if charset.len() == 0 {
            return Err(PassManError::InvalidInput);
        }
        let ghost base = base_charset(*options);
        let mut password: Vec<u8> = Vec::new();
        let ghost mut pick_u: u8 = 0;
        let ghost mut pick_l: u8 = 0;
        let ghost mut pick_n: u8 = 0;
        let ghost mut pick_s: u8 = 0;
        proof {
            lemma_class_lits_ascii();
        }
        if options.include_uppercase {
            let ghost pb = password@;
            let c = self.pick_from("ABCDEFGHIJKLMNOPQRSTUVWXYZ".as_bytes());
            password.push(c);
            proof {
                pick_u = c;
                lemma_push_keeps_values(pb, c);
                assert(password@[pb.len() as int] == c);
            }
        }
        if options.include_lowercase {
            let ghost pb = password@;
            let c = self.pick_from("abcdefghijklmnopqrstuvwxyz".as_bytes());
            password.push(c);
            proof {
                pick_l = c;
                lemma_push_keeps_values(pb, c);
                assert(password@[pb.len() as int] == c);
            }
        }
        if options.include_numbers {
            let ghost pb = password@;
            let c = self.pick_from("0123456789".as_bytes());
            password.push(c);
            proof {
                pick_n = c;
                lemma_push_keeps_values(pb, c);
                assert(password@[pb.len() as int] == c);
            }
        }
        if options.include_special {
            let ghost pb = password@;
            let c = self.pick_from("!@#$%^&*()_+-=[]{}|;:,.<>?".as_bytes());
            password.push(c);
            proof {
                pick_s = c;
                lemma_push_keeps_values(pb, c);
                assert(password@[pb.len() as int] == c);
            }
        }
        proof {
            assert(password@.len() == class_count(*options));
            assert forall|i: int| 0 <= i < password@.len() implies base.contains(
                #[trigger] password@[i],
            ) by {
                lemma_class_subsets(*options, password@[i]);
            }
        }
        while password.len() < options.length
            invariant
                base == base_charset(*options),
                charset@ == charset_spec(*options),
                charset@.len() >= 1,
                class_count(*options) <= password@.len() <= generated_len(*options),
                generated_len(*options) <= 1000 || generated_len(*options) == class_count(
                    *options,
                ),
                forall|i: int|
                    0 <= i < password@.len() ==> base.contains(#[trigger] password@[i]),
                options.include_uppercase ==> upper_bytes().contains(pick_u)
                    && password@.contains(pick_u),
                options.include_lowercase ==> lower_bytes().contains(pick_l)
                    && password@.contains(pick_l),
                options.include_numbers ==> number_bytes().contains(pick_n)
                    && password@.contains(pick_n),
                options.include_special ==> special_bytes().contains(pick_s)
                    && password@.contains(pick_s),
            decreases options.length - password@.len(),
        {
            let ghost before = password@;
            let c = self.pick_from(charset.as_slice());
            password.push(c);
            proof {
                lemma_charset_subset(*options, c);
                lemma_push_keeps_values(before, c);
            }
        }
        proof {
            assert(password@.len() == generated_len(*options));
        }
        let ghost pre_shuffle = password@;
        self.shuffle(&mut password);
        let ghost bytes = password@;
        proof {
            assert forall|i: int| 0 <= i < bytes.len() implies base.contains(
                #[trigger] bytes[i],
            ) by {
                let x = bytes[i];
                assert(bytes.contains(x));
                assert(pre_shuffle.contains(x));
                let w = choose|w: int| 0 <= w < pre_shuffle.len() && pre_shuffle[w] == x;
                assert(base.contains(pre_shuffle[w]));
            }
        }
        match crate::codec::string_from_utf8(password) {
            Some(p) => {
                proof {
                    assert(encode_utf8(p@) == bytes);
                    if options.include_uppercase {
                        assert(upper_bytes().contains(pick_u) && encode_utf8(p@).contains(
                            pick_u,
                        ));
                    }
                    if options.include_lowercase {
                        assert(lower_bytes().contains(pick_l) && encode_utf8(p@).contains(
                            pick_l,
                        ));
                    }
                    if options.include_numbers {
                        assert(number_bytes().contains(pick_n) && encode_utf8(p@).contains(
                            pick_n,
                        ));
                    }
                    if options.include_special {
                        assert(special_bytes().contains(pick_s) && encode_utf8(p@).contains(
                            pick_s,
                        ));
                    }
                }
                Ok(p)
            },
            None => {
                proof {
                    assert forall|i: int| 0 <= i < bytes.len() implies #[trigger] bytes[i]
                        < 128 by {
                        lemma_base_ascii(*options, bytes[i]);
                    }
                    lemma_ascii_bytes_valid_utf8(bytes);
                    assert(false);
                }
                Err(PassManError::InvalidInput)
            },
        }
    }

    /// Shuffle the bytes in place; the length is kept, and the result holds
    /// exactly the byte values of the input.
    fn shuffle(&mut self, s: &mut Vec<u8>)
        ensures
            final(s)@.len() == old(s)@.len(),
            forall|x: u8| old(s)@.contains(x) <==> final(s)@.contains(x),
    {
        let ghost orig = s@;
        if s.len() <= 1 {
            return ;
        }
        let mut i: usize = s.len() - 1;
        while i >= 1
            invariant
                i < s@.len(),
                s@.len() <= usize::MAX,
                s@.len() == orig.len(),
                forall|x: u8| orig.contains(x) <==> s@.contains(x),
            decreases i,
        {
            let j = gen_below(&mut self.rng, i + 1);
            let ghost before = s@;
            let a = s[i];
            let b = s[j];
            s[i] = b;
            s[j] = a;
            proof {
                lemma_swap_keeps_values(before, s@, i as int, j as int);
            }
            i = i - 1;
        }
    }

    /// Generate with letters and numbers only (see
    /// [`PasswordOptions::simple`]).
    pub fn generate_simple(&mut self, length: usize) -> (r: Result<String, PassManError>)
        ensures
            r is Ok <==> options_valid(
                PasswordOptions { include_special: false, exclude_ambiguous: true, length, ..PasswordOptions::default_spec() },
            ) && charset_spec(
                PasswordOptions { include_special: false, exclude_ambiguous: true, length, ..PasswordOptions::default_spec() },
            ).len() >= 1,
            r matches Ok(p) ==> encode_utf8(p@).len() == generated_len(
                PasswordOptions { include_special: false, exclude_ambiguous: true, length, ..PasswordOptions::default_spec() },
            ),
            r matches Err(e) ==> e == PassManError::InvalidInput,
    {
        let options = PasswordOptions::simple(length);
        self.generate(&options)
    }

    /// Generate with every character class (see [`PasswordOptions::strong`]).
    pub fn generate_strong(&mut self, length: usize) -> (r: Result<String, PassManError>)
        ensures
            r is Ok <==> options_valid(
                PasswordOptions { length, ..PasswordOptions::default_spec() },
            ) && charset_spec(PasswordOptions { length, ..PasswordOptions::default_spec() }).len()
                >= 1,
            r matches Ok(p) ==> encode_utf8(p@).len() == generated_len(
                PasswordOptions { length, ..PasswordOptions::default_spec() },
            ),
            r matches Err(e) ==> e == PassManError::InvalidInput,
    {
        let options = PasswordOptions::strong(length);
        self.generate(&options)
    }
}

/// A byte of one of the enabled class sets belongs to the combined base set.
proof fn lemma_class_subsets(o: PasswordOptions, c: u8)
    requires
        (o.include_uppercase && upper_bytes().contains(c)) || (o.include_lowercase
            && lower_bytes().contains(c)) || (o.include_numbers && number_bytes().contains(c)) || (
        o.include_special && special_bytes().contains(c)),
    ensures
        base_charset(o).contains(c),
{
    let u = if o.include_uppercase {
        upper_bytes()
    } else {
        Seq::<u8>::empty()
    };
    let l = if o.include_lowercase {
        lower_bytes()
    } else {
        Seq::<u8>::empty()
    };
    let n = if o.include_numbers {
        number_bytes()
    } else {
        Seq::<u8>::empty()
    };
    let s = if o.include_special {
        special_bytes()
    } else {
        Seq::<u8>::empty()
    };
    if o.include_uppercase && upper_bytes().contains(c) {
        let w = choose|w: int| 0 <= w < u.len() && u[w] == c;
        assert(base_charset(o)[w] == c);
    } else if o.include_lowercase && lower_bytes().contains(c) {
        let w = choose|w: int| 0 <= w < l.len() && l[w] == c;
        assert(base_charset(o)[u.len() + w] == c);
    } else if o.include_numbers && number_bytes().contains(c) {
        let w = choose|w: int| 0 <= w < n.len() && n[w] == c;
        assert(base_charset(o)[u.len() + l.len() + w] == c);
    } else {
        let w = choose|w: int| 0 <= w < s.len() && s[w] == c;
        assert(base_charset(o)[u.len() + l.len() + n.len() + w] == c);
    }
}

/// A byte of the filtered candidate set belongs to the base set.
proof fn lemma_charset_subset(o: PasswordOptions, c: u8)
    requires
        charset_spec(o).contains(c),
    ensures
        base_charset(o).contains(c),
{
    let base = base_charset(o);
    let p1 = |x: u8| !similar_bytes().contains(x);
    let p2 = |x: u8| !ambiguous_bytes().contains(x);
    let without_similar = if o.exclude_similar {
        base.filter(p1)
    } else {
        base
    };
    if o.exclude_ambiguous {
        lemma_filter_contains_subset(without_similar, p2, c);
    }
    if o.exclude_similar {
        lemma_filter_contains_subset(base, p1, c);
    }
}

/// Whatever the filter keeps was in the sequence.
proof fn lemma_filter_contains_subset<A>(s: Seq<A>, pred: spec_fn(A) -> bool, x: A)
    requires
        s.filter(pred).contains(x),
    ensures
        s.contains(x),
    decreases s.len(),
{
    reveal(Seq::filter);
    if s.len() > 0 {
        if pred(s.last()) && s.filter(pred).last() == x && s.last() == x {
            assert(s.contains(x));
        } else {
            let f = s.filter(pred);
            let fd = s.drop_last().filter(pred);
            if fd.contains(x) {
                lemma_filter_contains_subset(s.drop_last(), pred, x);
                let w = choose|w: int| 0 <= w < s.drop_last().len() && s.drop_last()[w] == x;
                assert(s[w] == x);
            } else {
                assert(pred(s.last()) && s.last() == x);
                assert(s[s.len() - 1] == x);
            }
        }
    }
}

/// Pushing a byte keeps every byte value that was already there.
proof fn lemma_push_keeps_values(s: Seq<u8>, c: u8)
    ensures
        forall|x: u8| s.contains(x) ==> #[trigger] s.push(c).contains(x),
{
    assert forall|x: u8| s.contains(x) implies #[trigger] s.push(c).contains(x) by {
        let w = choose|w: int| 0 <= w < s.len() && s[w] == x;
        assert(s.push(c)[w] == x);
    }
}

/// Swapping two positions keeps the set of byte values.
proof fn lemma_swap_keeps_values(s1: Seq<u8>, s2: Seq<u8>, t: int, p: int)
    requires
        0 <= t < s1.len(),
        0 <= p < s1.len(),
        s2 == s1.update(t, s1[p]).update(p, s1[t]),
    ensures
        s2.len() == s1.len(),
        forall|x: u8| s1.contains(x) <==> s2.contains(x),
{
    assert forall|x: u8| s1.contains(x) implies s2.contains(x) by {
        let w = choose|w: int| 0 <= w < s1.len() && s1[w] == x;
        if w == t {
            assert(s2[p] == x);
        } else if w == p {
            assert(s2[t] == x);
        } else {
            assert(s2[w] == x);
        }
    }
    assert forall|x: u8| s2.contains(x) implies s1.contains(x) by {
        let w = choose|w: int| 0 <= w < s2.len() && s2[w] == x;
        if w == t {
            assert(s1[p] == x);
        } else if w == p {
            assert(s1[t] == x);
        } else {
            assert(s1[w] == x);
        }
    }
}

/// The bytes of ASCII text: one byte per character, all below 128.
proof fn lemma_ascii_lit(s: Seq<char>)
    requires
        vstd::utf8::is_ascii_chars(s),
    ensures
        encode_utf8(s).len() == s.len(),
        forall|i: int| 0 <= i < encode_utf8(s).len() ==> #[trigger] encode_utf8(s)[i] < 128,
{
    vstd::utf8::is_ascii_chars_encode_utf8(s);
    vstd::utf8::is_ascii_chars_nat_bound(s);
    assert forall|i: int| 0 <= i < encode_utf8(s).len() implies #[trigger] encode_utf8(s)[i]
        < 128 by {
        assert(encode_utf8(s)[i] == s[i] as u8);
        assert((s[i] as nat) < 128);
    }
}

/// The class literals are ASCII.
proof fn lemma_class_lits_ascii()
    ensures
        vstd::utf8::is_ascii_chars("ABCDEFGHIJKLMNOPQRSTUVWXYZ"@),
        vstd::utf8::is_ascii_chars("abcdefghijklmnopqrstuvwxyz"@),
        vstd::utf8::is_ascii_chars("0123456789"@),
        vstd::utf8::is_ascii_chars("!@#$%^&*()_+-=[]{}|;:,.<>?"@),
        upper_bytes().len() == 26,
        lower_bytes().len() == 26,
        number_bytes().len() == 10,
        special_bytes().len() == 26,
{
    reveal_strlit("ABCDEFGHIJKLMNOPQRSTUVWXYZ");
    reveal_strlit("abcdefghijklmnopqrstuvwxyz");
    reveal_strlit("0123456789");
    reveal_strlit("!@#$%^&*()_+-=[]{}|;:,.<>?");
    assert(vstd::utf8::is_ascii_chars("ABCDEFGHIJKLMNOPQRSTUVWXYZ"@));
    assert(vstd::utf8::is_ascii_chars("abcdefghijklmnopqrstuvwxyz"@));
    assert(vstd::utf8::is_ascii_chars("0123456789"@));
    assert(vstd::utf8::is_ascii_chars("!@#$%^&*()_+-=[]{}|;:,.<>?"@));
    lemma_ascii_lit("ABCDEFGHIJKLMNOPQRSTUVWXYZ"@);
    lemma_ascii_lit("abcdefghijklmnopqrstuvwxyz"@);
    lemma_ascii_lit("0123456789"@);
    lemma_ascii_lit("!@#$%^&*()_+-=[]{}|;:,.<>?"@);
}

/// Every candidate byte is ASCII.
proof fn lemma_base_ascii(o: PasswordOptions, c: u8)
    requires
        base_charset(o).contains(c),
    ensures
        c < 128,
{
    lemma_class_lits_ascii();
    lemma_ascii_lit("ABCDEFGHIJKLMNOPQRSTUVWXYZ"@);
    lemma_ascii_lit("abcdefghijklmnopqrstuvwxyz"@);
    lemma_ascii_lit("0123456789"@);
    lemma_ascii_lit("!@#$%^&*()_+-=[]{}|;:,.<>?"@);
    let u = if o.include_uppercase {
        upper_bytes()
    } else {
        Seq::<u8>::empty()
    };
    let l = if o.include_lowercase {
        lower_bytes()
    } else {
        Seq::<u8>::empty()
    };
    let n = if o.include_numbers {
        number_bytes()
    } else {
        Seq::<u8>::empty()
    };
    let s = if o.include_special {
        special_bytes()
    } else {
        Seq::<u8>::empty()
    };
    let w = choose|w: int| 0 <= w < base_charset(o).len() && base_charset(o)[w] == c;
    if w < u.len() {
        assert(c == u[w]);
    } else if w < u.len() + l.len() {
        assert(c == l[w - u.len()]);
    } else if w < u.len() + l.len() + n.len() {
        assert(c == n[w - u.len() - l.len()]);
    } else {
        assert(c == s[w - u.len() - l.len() - n.len()]);
    }
}

/// A sequence of bytes below 128 is valid UTF-8 (each byte encodes one
/// character).
proof fn lemma_ascii_bytes_valid_utf8(bytes: Seq<u8>)
    requires
        forall|i: int| 0 <= i < bytes.len() ==> #[trigger] bytes[i] < 128,
    ensures
        vstd::utf8::valid_utf8(bytes),
{
    assert(vstd::utf8::valid_utf8(bytes.subrange(0, 0))) by {
        assert(bytes.subrange(0, 0) =~= Seq::<u8>::empty());
    }
    assert(vstd::utf8::partial_valid_utf8(bytes, 0));
    vstd::utf8::partial_valid_utf8_extend_ascii_block(bytes, 0, bytes.len() as int);
    assert(bytes.subrange(0, bytes.len() as int) =~= bytes);
}

// ---------------------------------------------------------------------------
// Strength scoring
// ---------------------------------------------------------------------------
/// Points awarded for a password's byte length (positive lengths).
pub open spec fn length_points(n: int) -> int {
    if n <= 7 {
        10
    } else if n <= 11 {
        20
    } else if n <= 15 {
        30
    } else if n <= 19 {
        40
    } else if n <= 23 {
        50
    } else {
        60
    }
}

/// Points awarded for the character classes that occur.
pub open spec fn variety_points(b: Seq<u8>) -> int {
    (if exists|i: int| 0 <= i < b.len() && is_upper_byte(#[trigger] b[i]) {
        10int
    } else {
        0int
    }) + (if exists|i: int| 0 <= i < b.len() && is_lower_byte(#[trigger] b[i]) {
        10int
    } else {
        0int
    }) + (if exists|i: int| 0 <= i < b.len() && is_digit_byte(#[trigger] b[i]) {
        10int
    } else {
        0int
    }) + (if exists|i: int| 0 <= i < b.len() && is_special_byte(#[trigger] b[i]) {
        10int
    } else {
        0int
    })
}

/// Three equal bytes in a row.
pub open spec fn has_triple(b: Seq<u8>) -> bool {
    exists|i: int| 0 <= i && i + 2 < b.len() && #[trigger] b[i] == b[i + 1] && b[i + 1] == b[i + 2]
}

/// `needle` occurs as a contiguous run of `hay`.
pub open spec fn bytes_contain(hay: Seq<u8>, needle: Seq<u8>) -> bool {
    exists|i: int|
        0 <= i && i + needle.len() <= hay.len() && #[trigger] hay.subrange(i, i + needle.len())
            == needle
}

/// Whether a three-byte window follows one of the keyboard rows.
pub open spec fn window_in_some_row(w: Seq<u8>) -> bool {
    ||| bytes_contain(encode_utf8("qwertyuiop"@), w)
    ||| bytes_contain(encode_utf8("asdfghjkl"@), w)
    ||| bytes_contain(encode_utf8("zxcvbnm"@), w)
    ||| bytes_contain(encode_utf8("1234567890"@), w)
}

/// Some three consecutive bytes follow a keyboard row.
pub open spec fn has_keyboard_run(b: Seq<u8>) -> bool {
    exists|i: int| 0 <= i && i + 3 <= b.len() && window_in_some_row(#[trigger] b.subrange(i, i + 3))
}

/// A predictable pattern: a tripled byte or a keyboard run.
pub open spec fn has_pattern(b: Seq<u8>) -> bool {
    has_triple(b) || has_keyboard_run(b)
}

/// ASCII lowercasing of one byte.
pub open spec fn lower_byte_of(c: u8) -> u8 {
    if 65 <= c <= 90 {
        (c + 32) as u8
    } else {
        c
    }
}

/// ASCII lowercasing of a byte string.
pub open spec fn ascii_lowered(b: Seq<u8>) -> Seq<u8> {
    b.map_values(|c: u8| lower_byte_of(c))
}

/// Whether the lowercased password is one of the well-known ones.
pub open spec fn is_common(b: Seq<u8>) -> bool {
    ||| ascii_lowered(b) == encode_utf8("password"@)
    ||| ascii_lowered(b) == encode_utf8("123456"@)
    ||| ascii_lowered(b) == encode_utf8("123456789"@)
    ||| ascii_lowered(b) == encode_utf8("qwerty"@)
    ||| ascii_lowered(b) == encode_utf8("abc123"@)
    ||| ascii_lowered(b) == encode_utf8("password123"@)
    ||| ascii_lowered(b) == encode_utf8("admin"@)
    ||| ascii_lowered(b) == encode_utf8("letmein"@)
    ||| ascii_lowered(b) == encode_utf8("welcome"@)
    ||| ascii_lowered(b) == encode_utf8("monkey"@)
    ||| ascii_lowered(b) == encode_utf8("1234567890"@)
    ||| ascii_lowered(b) == encode_utf8("password1"@)
    ||| ascii_lowered(b) == encode_utf8("qwerty123"@)
    ||| ascii_lowered(b) == encode_utf8("dragon"@)
    ||| ascii_lowered(b) == encode_utf8("master"@)
}

/// The strength score of a password's bytes: points for length and variety,
/// a 20-point penalty for predictable patterns, a 30-point penalty for a
/// well-known password, floored at 0 and capped at 100.
pub open spec fn strength_spec(b: Seq<u8>) -> int {
    if b.len() == 0 {
        0
    } else {
        let base = length_points(b.len() as int) + variety_points(b);
        let after_pattern = if has_pattern(b) {
            if base >= 20 {
                base - 20
            } else {
                0
            }
        } else {
            base
        };
        let after_common = if is_common(b) {
            if after_pattern >= 30 {
                after_pattern - 30
            } else {
                0
            }
        } else {
            after_pattern
        };
        if after_common > 100 {
            100
        } else {
            after_common
        }
    }
}

/// Whether two byte strings are equal.
fn eq_bytes(a: &[u8], b: &[u8]) -> (r: bool)
    ensures
        r == (a@ == b@),
{
    if a.len() != b.len() {
        proof {
            assert(a@ != b@);
        }
        return false;
    }
    let mut i: usize = 0;
    while i < a.len()
        invariant
            i <= a@.len(),
            a@.len() == b@.len(),
            forall|k: int| 0 <= k < i ==> a@[k] == b@[k],
        decreases a@.len() - i,
    {
        if a[i] != b[i] {
            return false;
        }
        i = i + 1;
    }
    proof {
        assert(a@ =~= b@);
    }
    true
}

/// Whether `b` has three equal bytes in a row.
fn find_triple(b: &[u8]) -> (r: bool)
    ensures
        r == has_triple(b@),
{
    if b.len() < 3 {
        return false;
    }
    let mut i: usize = 0;
    while i + 2 < b.len()
        invariant
            b@.len() <= usize::MAX,
            i + 2 <= b@.len(),
            forall|k: int| 0 <= k < i ==> !(#[trigger] b@[k] == b@[k + 1] && b@[k + 1] == b@[k
                + 2]),
        decreases b@.len() - i,
    {
        if b[i] == b[i + 1] && b[i + 1] == b[i + 2] {
            return true;
        }
        i = i + 1;
    }
    false
}

/// Whether the three bytes starting at `w` in `b` occur in `row`.
fn row_contains_window(row: &[u8], b: &[u8], w: usize) -> (r: bool)
    requires
        w + 3 <= b@.len(),
    ensures
        r == bytes_contain(row@, b@.subrange(w as int, w as int + 3)),
{
    let ghost needle = b@.subrange(w as int, w as int + 3);
    if row.len() < 3 {
        proof {
            assert(!bytes_contain(row@, needle));
        }
        return false;
    }
    let mut j: usize = 0;
    while j <= row.len() - 3
        invariant
            row@.len() >= 3,
            j <= row@.len() - 2,
            w + 3 <= b@.len(),
            needle == b@.subrange(w as int, w as int + 3),
            forall|k: int| 0 <= k < j ==> #[trigger] row@.subrange(k, k + 3) != needle,
        decreases row@.len() - j,
    {
        let hit = row[j] == b[w] && row[j + 1] == b[w + 1] && row[j + 2] == b[w + 2];
        proof {
            assert(row@.subrange(j as int, j as int + 3) =~= needle <==> (row@[j as int]
                == needle[0] && row@[j as int + 1] == needle[1] && row@[j as int + 2]
                == needle[2]));
        }
        if hit {
            return true;
        }
        j = j + 1;
    }
    proof {
        assert forall|k: int|
            0 <= k && k + 3 <= row@.len() implies #[trigger] row@.subrange(k, k + 3)
            != needle by {}
    }
    false
}

/// Whether some three consecutive bytes of `b` follow a keyboard row.
fn find_keyboard_run(b: &[u8]) -> (r: bool)
    ensures
        r == has_keyboard_run(b@),
{
    if b.len() < 3 {
        return false;
    }
    let mut i: usize = 0;
    while i <= b.len() - 3
        invariant
            b@.len() >= 3,
            i <= b@.len() - 2,
            forall|k: int|
                0 <= k < i && k + 3 <= b@.len() ==> !window_in_some_row(
                    #[trigger] b@.subrange(k, k + 3),
                ),
        decreases b@.len() - i,
    {
        let hit = row_contains_window("qwertyuiop".as_bytes(), b, i) || row_contains_window(
            "asdfghjkl".as_bytes(),
            b,
            i,
        ) || row_contains_window("zxcvbnm".as_bytes(), b, i) || row_contains_window(
            "1234567890".as_bytes(),
            b,
            i,
        );
        if hit {
            proof {
                assert(window_in_some_row(b@.subrange(i as int, i as int + 3)));
            }
            return true;
        }
        i = i + 1;
    }
    false
}

/// ASCII-lowercase a byte string.
fn lower_bytes_exec(b: &[u8]) -> (r: Vec<u8>)
    ensures
        r@ == ascii_lowered(b@),
{
    let mut out: Vec<u8> = Vec::new();
    let mut i: usize = 0;
    while i < b.len()
        invariant
            i <= b@.len(),
            out@.len() == i,
            forall|k: int| 0 <= k < i ==> out@[k] == lower_byte_of(#[trigger] b@[k]),
        decreases b@.len() - i,
    {
        let c = b[i];
        if 65 <= c && c <= 90 {
            out.push(c + 32);
        } else {
            out.push(c);
        }
        i = i + 1;
    }
    proof {
        assert(out@ =~= ascii_lowered(b@));
    }
    out
}

/// Whether the lowercased bytes spell a well-known password.
fn check_common(b: &[u8]) -> (r: bool)
    ensures
        r == is_common(b@),
{
    let lowered = lower_bytes_exec(b);
    let l = lowered.as_slice();
    if eq_bytes(l, "password".as_bytes()) {
        return true;
    }
    if eq_bytes(l, "123456".as_bytes()) {
        return true;
    }
    if eq_bytes(l, "123456789".as_bytes()) {
        return true;
    }
    if eq_bytes(l, "qwerty".as_bytes()) {
        return true;
    }
    if eq_bytes(l, "abc123".as_bytes()) {
        return true;
    }
    if eq_bytes(l, "password123".as_bytes()) {
        return true;
    }
    if eq_bytes(l, "admin".as_bytes()) {
        return true;
    }
    if eq_bytes(l, "letmein".as_bytes()) {
        return true;
    }
    if eq_bytes(l, "welcome".as_bytes()) {
        return true;
    }
    if eq_bytes(l, "monkey".as_bytes()) {
        return true;
    }
    if eq_bytes(l, "1234567890".as_bytes()) {
        return true;
    }
    if eq_bytes(l, "password1".as_bytes()) {
        return true;
    }
    if eq_bytes(l, "qwerty123".as_bytes()) {
        return true;
    }
    if eq_bytes(l, "dragon".as_bytes()) {
        return true;
    }
    if eq_bytes(l, "master".as_bytes()) {
        return true;
    }
    false
}

impl PasswordGenerator {
    /// Score a password from 0 (weak) to 100 (very strong): see
    /// [`strength_spec`].
    pub fn calculate_strength(&self, password: &str) -> (r: u8)
        ensures
            r as int == strength_spec(encode_utf8(password@)),
            r <= 100,
    {
        let b = password.as_bytes();
        if b.len() == 0 {
            return 0;
        }
        let mut score: u32 = if b.len() <= 7 {
            10
        } else if b.len() <= 11 {
            20
        } else if b.len() <= 15 {
            30
        } else if b.len() <= 19 {
            40
        } else if b.len() <= 23 {
            50
        } else {
            60
        };
        if crate::auth::has_upper(b) {
            score = score + 10;
        }
        if crate::auth::has_lower(b) {
            score = score + 10;
        }
        if crate::auth::has_digit(b) {
            score = score + 10;
        }
        if crate::auth::has_special(b) {
            score = score + 10;
        }
        if find_triple(b) || find_keyboard_run(b) {
            score = if score >= 20 {
                score - 20
            } else {
                0
            };
        }
        if check_common(b) {
            score = if score >= 30 {
                score - 30
            } else {
                0
            };
        }
        if score > 100 {
            score = 100;
        }
        score as u8
    }

    /// The description of a strength score.
    pub fn get_strength_description(&self, score: u8) -> (r: &'static str)
        ensures
            r@ == description_spec(score),
    {
        if score <= 20 {
            "Very Weak"
        } else if score <= 40 {
            "Weak"
        } else if score <= 60 {
            "Fair"
        } else if score <= 80 {
            "Good"
        } else if score <= 90 {
            "Strong"
        } else if score <= 100 {
            "Very Strong"
        } else {
            "Unknown"
        }
    }

    /// Generate a passphrase of `word_count` words from the built-in list,
    /// joined by `separator` (a space when none is given). Succeeds exactly
    /// when at least one word is asked for.
    pub fn generate_passphrase(&mut self, word_count: usize, separator: Option<char>) -> (r:
        Result<String, PassManError>)
        ensures
            r is Ok <==> word_count >= 1,
            r matches Err(e) ==> e == PassManError::InvalidInput,
    {
        if word_count == 0 {
            return Err(PassManError::InvalidInput);
        }
        let words: [&str; 16] = [
            "anchor",
            "breeze",
            "candle",
            "dune",
            "ember",
            "fjord",
            "grove",
            "harbor",
            "island",
            "juniper",
            "kettle",
            "lantern",
            "meadow",
            "north",
            "orchard",
            "pebble",
        ];
        let sep = match separator {
            Some(c) => c,
            None => ' ',
        };
        let mut passphrase = String::new();
        let mut k: usize = 0;
        while k < word_count
            invariant
                k <= word_count,
            decreases word_count - k,
        {
            if k > 0 {
                push_char(&mut passphrase, sep);
            }
            let w = gen_below(&mut self.rng, 16);
            passphrase.append(words[w]);
            k = k + 1;
        }
        Ok(passphrase)
    }
}

/// The text shown for a strength score.
pub open spec fn description_spec(score: u8) -> Seq<char> {
    if score <= 20 {
        "Very Weak"@
    } else if score <= 40 {
        "Weak"@
    } else if score <= 60 {
        "Fair"@
    } else if score <= 80 {
        "Good"@
    } else if score <= 90 {
        "Strong"@
    } else if score <= 100 {
        "Very Strong"@
    } else {
        "Unknown"@
    }
}

impl Default for PasswordGenerator {
    fn default() -> PasswordGenerator {
        PasswordGenerator::new()
    }
}

} // verus!
