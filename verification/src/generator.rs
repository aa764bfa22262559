//! The password generator: passwords over four character classes, with
//! every choice drawn from the system's random source by rejection
//! sampling, so that no index is favoured.

use vstd::prelude::*;
use crate::crypto::random_array;
use crate::error::VaultError;
use crate::secret::SecretString;
use crate::util::{ascii_text, string_of_ascii};

verus! {

/// Upper-case letters without `I` and `O`.
pub const UPPERS: [u8; 24] = [
    65, 66, 67, 68, 69, 70, 71, 72, 74, 75, 76, 77, 78, 80, 81, 82, 83, 84, 85, 86, 87, 88, 89, 90,
];

/// Lower-case letters without `l`.
pub const LOWERS: [u8; 25] = [
    97, 98, 99, 100, 101, 102, 103, 104, 105, 106, 107, 109, 110, 111, 112, 113, 114, 115, 116, 117,
    118, 119, 120, 121, 122,
];

/// Digits without `0` and `1`.
pub const DIGITS: [u8; 8] = [50, 51, 52, 53, 54, 55, 56, 57];

/// The special characters `!@#$%^&*()[]{}-_=+:;,.?/`.
pub const SPECIALS: [u8; 24] = [
    33, 64, 35, 36, 37, 94, 38, 42, 40, 41, 91, 93, 123, 125, 45, 95, 61, 43, 58, 59, 44, 46, 63, 47,
];

/// How often the random source is asked for one index before the
/// generator gives up.
pub const MAX_DRAWS: usize = 128;

/// The four character classes of the generator.
#[derive(Debug, Clone, Copy, PartialEq, Eq, Structural)]
pub enum CharClass {
    Upper,
    Lower,
    Digit,
    Special,
}

/// The classes that a password is to draw from.
#[derive(Debug, Clone, Copy, PartialEq, Eq, Structural)]
pub struct Classes {
    pub upper: bool,
    pub lower: bool,
    pub digit: bool,
    pub special: bool,
}

/// Whether an ASCII byte is a character of a class. No class holds a glyph
/// that is easily taken for another: `I`, `l`, `1`, `0`, `O`.
pub open spec fn in_class(c: u8, class: CharClass) -> bool {
    match class {
        CharClass::Upper => 65 <= c <= 90 && c != 73 && c != 79,
        CharClass::Lower => 97 <= c <= 122 && c != 108,
        CharClass::Digit => 50 <= c <= 57,
        CharClass::Special => c == 33 || (35 <= c <= 38) || (40 <= c <= 47) || c == 58 || c == 59
            || c == 61 || c == 63 || c == 64 || c == 91 || c == 93 || c == 94 || c == 95 || c
            == 123 || c == 125,
    }
}

impl Classes {
    /// Whether a class is switched on.
    pub open spec fn has(self, class: CharClass) -> bool {
        match class {
            CharClass::Upper => self.upper,
            CharClass::Lower => self.lower,
            CharClass::Digit => self.digit,
            CharClass::Special => self.special,
        }
    }

    /// The number of classes that are switched on.
    pub open spec fn count(self) -> int {
        (if self.upper { 1int } else { 0 }) + (if self.lower { 1int } else { 0 }) + (if self.digit {
            1int
        } else {
            0
        }) + (if self.special { 1int } else { 0 })
    }

    /// The classes that are left when the named ones are switched off.
    pub open spec fn without(no_upper: bool, no_lower: bool, no_digits: bool, no_specials: bool)
        -> Classes {
        Classes { upper: !no_upper, lower: !no_lower, digit: !no_digits, special: !no_specials }
    }
}

/// Whether a byte belongs to one of the classes that are switched on.
pub open spec fn in_union(c: u8, classes: Classes) -> bool {
    exists|class: CharClass| classes.has(class) && in_class(c, class)
}

/// Whether some byte of a string belongs to a class.
pub open spec fn has_class(bytes: Seq<u8>, class: CharClass) -> bool {
    exists|i: int| 0 <= i < bytes.len() && in_class(#[trigger] bytes[i], class)
}

/// Whether every byte of a string belongs to a class that is switched on.
pub open spec fn all_in_union(bytes: Seq<u8>, classes: Classes) -> bool {
    forall|i: int| 0 <= i < bytes.len() ==> in_union(#[trigger] bytes[i], classes)
}

/// Whether a byte string is a password of the given length over the given
/// classes: every byte comes from a class that is switched on, and every
/// class that is switched on has given at least one byte.
pub open spec fn is_password(bytes: Seq<u8>, len: usize, classes: Classes) -> bool {
    &&& bytes.len() == len
    &&& all_in_union(bytes, classes)
    &&& forall|class: CharClass| classes.has(class) ==> has_class(bytes, class)
}

/// The requests that the generator refuses: no class switched on, a length
/// below the number of classes, or a length beyond what 32-bit samples can
/// shuffle.
pub open spec fn request_refused(len: usize, classes: Classes) -> bool {
    classes.count() == 0 || len < classes.count() || len > u32::MAX
}

/// The bytes of a text, each character cut to eight bits.
pub open spec fn ascii_bytes(text: Seq<char>) -> Seq<u8> {
    text.map_values(|c: char| c as u8)
}

/// The first sample that is too large to be used for an index below `n`:
/// the largest multiple of `n` that is at most `u32::MAX`.
pub open spec fn sample_limit(n: u32) -> int
    recommends
        n > 0,
{
    u32::MAX - (u32::MAX as int % n as int)
}

/// The index that a sample stands for: its remainder by `n`, or nothing
/// for a sample at or above `sample_limit(n)`, which would favour the low
/// indices.
pub open spec fn sample_index(x: u32, n: u32) -> Option<u32> {
    if n > 0 && x < sample_limit(n) {
        Some((x as int % n as int) as u32)
    } else {
        None
    }
}

/// The number that four bytes stand for, low byte first.
pub open spec fn le_u32(b: Seq<u8>) -> int
    recommends
        b.len() == 4,
{
    b[0] + 256 * b[1] + 65536 * b[2] + 16777216 * b[3]
}

/// The pool of a class.
pub open spec fn pool_of(class: CharClass) -> Seq<u8> {
    match class {
        CharClass::Upper => UPPERS@,
        CharClass::Lower => LOWERS@,
        CharClass::Digit => DIGITS@,
        CharClass::Special => SPECIALS@,
    }
}

/// Every byte of a pool is a character of its class.
pub proof fn lemma_pool_in_class(class: CharClass, i: int)
    requires
        0 <= i < pool_of(class).len(),
    ensures
        in_class(pool_of(class)[i], class),
        pool_of(class)[i] < 128,
{
}

proof fn lemma_push_keeps_class(s: Seq<u8>, c: u8, class: CharClass)
    requires
        has_class(s, class),
    ensures
        has_class(s.push(c), class),
{
    let i = choose|i: int| 0 <= i < s.len() && in_class(#[trigger] s[i], class);
    assert(s.push(c)[i] == s[i]);
}

proof fn lemma_push_adds_class(s: Seq<u8>, c: u8, class: CharClass)
    requires
        in_class(c, class),
    ensures
        has_class(s.push(c), class),
{
    assert(s.push(c)[s.len() as int] == c);
}

proof fn lemma_swap_keeps_class(s: Seq<u8>, i: int, j: int, class: CharClass)
    requires
        0 <= i < s.len(),
        0 <= j < s.len(),
        has_class(s, class),
    ensures
        has_class(s.update(i, s[j]).update(j, s[i]), class),
{
    let t = s.update(i, s[j]).update(j, s[i]);
    let k = choose|k: int| 0 <= k < s.len() && in_class(#[trigger] s[k], class);
    if k == i {
        assert(t[j] == s[i]);
    } else if k == j {
        assert(t[i] == s[j]);
    } else {
        assert(t[k] == s[k]);
    }
}

/// The index that a sample stands for, if it may be used.
pub fn accept_sample(x: u32, n: u32) -> (r: Option<u32>)
    ensures
        r == sample_index(x, n),
        r is Some ==> r->Some_0 < n,
{
    if n == 0 {
        return None;
    }
    let limit: u32 = u32::MAX - (u32::MAX % n);
    if x < limit {
        Some(x % n)
    } else {
        None
    }
}

/// The number that four bytes stand for, low byte first.
pub fn u32_of_le_bytes(b: &[u8; 4]) -> (x: u32)
    ensures
        x == le_u32(b@),
{
    let b0: u32 = b[0] as u32;
    let b1: u32 = b[1] as u32;
    let b2: u32 = b[2] as u32;
    let b3: u32 = b[3] as u32;
    b0 + 256 * b1 + 65536 * b2 + 16777216 * b3
}

/// A uniform random index below `n`, by rejection sampling on 32-bit
/// samples of the random source.
///
/// It fails with `Validation` for `n` zero or beyond `u32::MAX`, and with
/// `Crypto` where the random source fails or gives `MAX_DRAWS` samples in
/// a row that cannot be used.
pub fn rand_index(n: usize) -> (r: Result<usize, VaultError>)
    ensures
        match r {
            Ok(i) => 0 < n <= u32::MAX && i < n,
            Err(e) => if n == 0 || n > u32::MAX {
                e == VaultError::Validation
            } else {
                e == VaultError::Crypto
            },
        },
{
    if n == 0 || n > 0xFFFF_FFFF {
        return Err(VaultError::Validation);
    }
    let n32: u32 = n as u32;
    let mut draws: usize = 0;
    while draws < MAX_DRAWS
        invariant
            0 < n <= u32::MAX,
            n32 == n,
        decreases MAX_DRAWS - draws,
    {
        let bytes: [u8; 4] = match random_array::<4>() {
            Ok(b) => b,
            Err(_) => { return Err(VaultError::Crypto); },
        };
        let x = u32_of_le_bytes(&bytes);
        match accept_sample(x, n32) {
            Some(i) => { return Ok(i as usize); },
            None => {},
        }
        draws += 1;
    }
    Err(VaultError::Crypto)
}

/// One byte of an alphabet, chosen uniformly at random.
///
/// It fails with `Validation` for an alphabet that is empty or longer than
/// `u32::MAX`, and with `Crypto` where `rand_index` does.
pub fn pick_one(alphabet: &[u8]) -> (r: Result<u8, VaultError>)
    ensures
        match r {
            Ok(c) => exists|i: int| 0 <= i < alphabet@.len() && c == #[trigger] alphabet@[i],
            Err(e) => if alphabet@.len() == 0 || alphabet@.len() > u32::MAX {
                e == VaultError::Validation
            } else {
                e == VaultError::Crypto
            },
        },
{
    match rand_index(alphabet.len()) {
        Ok(i) => Ok(alphabet[i]),
        Err(e) => Err(e),
    }
}

fn append_pool(union: &mut Vec<u8>, pool: &[u8], Ghost(classes): Ghost<Classes>, Ghost(
    class,
): Ghost<CharClass>)
    requires
        pool@ == pool_of(class),
        classes.has(class),
        all_in_union(old(union)@, classes),
    ensures
        final(union)@ == old(union)@ + pool@,
        all_in_union(final(union)@, classes),
{
    let n = pool.len();
    let mut i: usize = 0;
    while i < n
        invariant
            n == pool@.len(),
            i <= n,
            pool@ == pool_of(class),
            classes.has(class),
            union@ == old(union)@ + pool@.subrange(0, i as int),
            all_in_union(union@, classes),
        decreases n - i,
    {
        proof {
            lemma_pool_in_class(class, i as int);
        }
        union.push(pool[i]);
        assert(pool@.subrange(0, i + 1) =~= pool@.subrange(0, i as int).push(pool@[i as int]));
        assert(union@ =~= old(union)@ + pool@.subrange(0, i + 1));
        i += 1;
    }
    assert(pool@.subrange(0, n as int) =~= pool@);
}

/// Whether `out` and `union` are what the generator holds once the
/// classes in `done` have been seeded: one byte in `out` for each of them,
/// and their pools in `union`.
pub open spec fn seeded(out: Seq<u8>, union: Seq<u8>, classes: Classes, done: Classes) -> bool {
    &&& out.len() == done.count()
    &&& done.count() > 0 ==> union.len() > 0
    &&& union.len() <= 25 * done.count()
    &&& all_in_union(out, classes)
    &&& all_in_union(union, classes)
    &&& forall|class: CharClass| done.has(class) ==> has_class(out, class)
}

impl Classes {
    /// These classes and one more.
    pub open spec fn with(self, class: CharClass) -> Classes {
        match class {
            CharClass::Upper => Classes { upper: true, ..self },
            CharClass::Lower => Classes { lower: true, ..self },
            CharClass::Digit => Classes { digit: true, ..self },
            CharClass::Special => Classes { special: true, ..self },
        }
    }
}

proof fn lemma_with(done: Classes, class: CharClass)
    requires
        !done.has(class),
    ensures
        done.with(class).count() == done.count() + 1,
        forall|other: CharClass|
            done.with(class).has(other) == (done.has(other) || other == class),
        0 < pool_of(class).len() <= 25,
{
}

fn seed_class(
    out: &mut Vec<u8>,
    union: &mut Vec<u8>,
    pool: &[u8],
    Ghost(classes): Ghost<Classes>,
    Ghost(done): Ghost<Classes>,
    Ghost(class): Ghost<CharClass>,
) -> (r: Result<(), VaultError>)
    requires
        pool@ == pool_of(class),
        classes.has(class),
        !done.has(class),
        seeded(old(out)@, old(union)@, classes, done),
    ensures
        r is Ok ==> seeded(final(out)@, final(union)@, classes, done.with(class)),
        r is Err ==> r == Err::<(), VaultError>(VaultError::Crypto),
{
    append_pool(union, pool, Ghost(classes), Ghost(class));
    match pick_one(pool) {
        Ok(c) => {
            proof {
                let i = choose|i: int| 0 <= i < pool@.len() && c == #[trigger] pool@[i];
                lemma_pool_in_class(class, i);
                lemma_push_adds_class(out@, c, class);
                assert forall|other: CharClass| has_class(out@, other) implies has_class(
                    out@.push(c),
                    other,
                ) by {
                    lemma_push_keeps_class(out@, c, other);
                }
                assert(in_union(c, classes));
                lemma_with(done, class);
                let grown = out@.push(c);
                assert forall|k: int| 0 <= k < grown.len() implies in_union(
                    #[trigger] grown[k],
                    classes,
                ) by {
                    if k < out@.len() {
                        assert(grown[k] == out@[k]);
                    }
                }
                assert forall|other: CharClass| done.with(class).has(other) implies has_class(
                    grown,
                    other,
                ) by {
                    if other != class {
                        assert(has_class(out@, other));
                    }
                }
            }
            out.push(c);
            Ok(())
        },
        Err(_) => Err(VaultError::Crypto),
    }
}

/// A byte string with the bytes at two positions exchanged; the string
/// itself for a position outside it.
pub open spec fn swapped(s: Seq<u8>, i: int, j: int) -> Seq<u8> {
    if 0 <= i < s.len() && 0 <= j < s.len() {
        s.update(i, s[j]).update(j, s[i])
    } else {
        s
    }
}

/// The Fisher–Yates shuffle of a byte string under given draws: the first
/// draw is exchanged with the last position, the second with the last but
/// one, and so on. With each draw uniform among the positions up to its
/// own, every order of the bytes is as likely as any other.
pub open spec fn shuffled(s: Seq<u8>, draws: Seq<usize>) -> Seq<u8>
    decreases draws.len(),
{
    if draws.len() == 0 {
        s
    } else {
        swapped(shuffled(s, draws.drop_last()), s.len() - draws.len(), draws.last() as int)
    }
}

/// A shuffle keeps the length.
pub proof fn lemma_shuffled_len(s: Seq<u8>, draws: Seq<usize>)
    ensures
        shuffled(s, draws).len() == s.len(),
    decreases draws.len(),
{
    if draws.len() > 0 {
        lemma_shuffled_len(s, draws.drop_last());
    }
}

/// A shuffle keeps every byte, as often as it stood in the input.
pub proof fn lemma_shuffled_permutes(s: Seq<u8>, draws: Seq<usize>)
    ensures
        shuffled(s, draws).to_multiset() == s.to_multiset(),
    decreases draws.len(),
{
    if draws.len() > 0 {
        let t = shuffled(s, draws.drop_last());
        lemma_shuffled_permutes(s, draws.drop_last());
        let i = s.len() - draws.len();
        let j = draws.last() as int;
        if 0 <= i < t.len() && 0 <= j < t.len() {
            vstd::seq_lib::to_multiset_update(t, i, t[j]);
            vstd::seq_lib::to_multiset_update(t.update(i, t[j]), j, t[i]);
            t.to_multiset_ensures();
            if i != j {
                assert(t.update(i, t[j])[j] == t[j]);
            }
            assert(swapped(t, i, j).to_multiset() =~= t.to_multiset());
        }
    }
}

proof fn lemma_swapped_keeps_union(t: Seq<u8>, i: int, j: int, classes: Classes)
    requires
        all_in_union(t, classes),
    ensures
        all_in_union(swapped(t, i, j), classes),
{
    if 0 <= i < t.len() && 0 <= j < t.len() {
        let u = swapped(t, i, j);
        assert forall|k: int| 0 <= k < u.len() implies in_union(#[trigger] u[k], classes) by {
            let from = if k == j {
                i
            } else if k == i {
                j
            } else {
                k
            };
            assert(u[k] == t[from]);
        }
    }
}

proof fn lemma_swapped_keeps_class(t: Seq<u8>, i: int, j: int, class: CharClass)
    requires
        has_class(t, class),
    ensures
        has_class(swapped(t, i, j), class),
{
    if 0 <= i < t.len() && 0 <= j < t.len() {
        lemma_swap_keeps_class(t, i, j, class);
    }
}

proof fn lemma_shuffled_keeps_union(s: Seq<u8>, draws: Seq<usize>, classes: Classes)
    requires
        all_in_union(s, classes),
    ensures
        all_in_union(shuffled(s, draws), classes),
    decreases draws.len(),
{
    if draws.len() > 0 {
        lemma_shuffled_keeps_union(s, draws.drop_last(), classes);
        lemma_swapped_keeps_union(
            shuffled(s, draws.drop_last()),
            s.len() - draws.len(),
            draws.last() as int,
            classes,
        );
    }
}

proof fn lemma_shuffled_keeps_class(s: Seq<u8>, draws: Seq<usize>, class: CharClass)
    requires
        has_class(s, class),
    ensures
        has_class(shuffled(s, draws), class),
    decreases draws.len(),
{
    if draws.len() > 0 {
        lemma_shuffled_keeps_class(s, draws.drop_last(), class);
        lemma_swapped_keeps_class(
            shuffled(s, draws.drop_last()),
            s.len() - draws.len(),
            draws.last() as int,
            class,
        );
    }
}

/// A shuffle of a password is a password.
pub proof fn lemma_shuffled_keeps_password(
    s: Seq<u8>,
    draws: Seq<usize>,
    len: usize,
    classes: Classes,
)
    requires
        is_password(s, len, classes),
    ensures
        is_password(shuffled(s, draws), len, classes),
{
    lemma_shuffled_len(s, draws);
    lemma_shuffled_keeps_union(s, draws, classes);
    assert forall|class: CharClass| classes.has(class) implies has_class(
        shuffled(s, draws),
        class,
    ) by {
        lemma_shuffled_keeps_class(s, draws, class);
    }
}

/// Shuffles a byte string under given draws, the first draw for the last
/// position.
pub fn shuffle_with(bytes: Vec<u8>, draws: &Vec<usize>) -> (r: Vec<u8>)
    ensures
        r@ == shuffled(bytes@, draws@),
{
    let ghost before = bytes@;
    let mut out = bytes;
    let n = out.len();
    let mut k: usize = 0;
    assert(draws@.take(0) =~= Seq::<usize>::empty());
    while k < draws.len()
        invariant
            k <= draws@.len(),
            n == before.len(),
            out@.len() == n,
            out@ == shuffled(before, draws@.take(k as int)),
        decreases draws@.len() - k,
    {
        let j = draws[k];
        proof {
            assert(draws@.take(k + 1).drop_last() =~= draws@.take(k as int));
            assert(draws@.take(k + 1).last() == draws@[k as int]);
        }
        if k < n && j < n {
            let i = n - 1 - k;
            let a = out[i];
            let b = out[j];
            out.set(i, b);
            out.set(j, a);
        }
        k += 1;
    }
    assert(draws@.take(draws@.len() as int) =~= draws@);
    out
}

/// Draws the swaps of a Fisher–Yates shuffle from the random source, one
/// for each position from the last down to the second, each among the
/// positions up to its own, and shuffles the bytes under them.
fn shuffle(bytes: Vec<u8>, Ghost(classes): Ghost<Classes>) -> (r: Result<Vec<u8>, VaultError>)
    requires
        bytes@.len() <= u32::MAX,
        is_password(bytes@, bytes@.len() as usize, classes),
    ensures
        match r {
            Ok(mixed) => is_password(mixed@, bytes@.len() as usize, classes),
            Err(e) => e == VaultError::Crypto,
        },
{
    let len = bytes.len();
    let mut draws: Vec<usize> = Vec::new();
    let mut i: usize = len;
    while i > 1
        invariant
            i <= len,
            len <= u32::MAX,
        decreases i,
    {
        i -= 1;
        match rand_index(i + 1) {
            Ok(j) => {
                draws.push(j);
            },
            Err(_) => { return Err(VaultError::Crypto); },
        }
    }
    proof {
        lemma_shuffled_keeps_password(bytes@, draws@, len, classes);
    }
    Ok(shuffle_with(bytes, &draws))
}

/// Seeds a password: one byte from the pool of each class that is switched
/// on, in the order upper, lower, digit, special, and beside it the pools
/// of those classes together.
fn seed_classes(classes: Classes) -> (r: Result<(Vec<u8>, Vec<u8>), VaultError>)
    ensures
        match r {
            Ok((out, union)) => seeded(out@, union@, classes, classes),
            Err(e) => e == VaultError::Crypto,
        },
{
    let mut union: Vec<u8> = Vec::new();
    let mut out: Vec<u8> = Vec::new();
    let ghost mut done = Classes { upper: false, lower: false, digit: false, special: false };
    if classes.upper {
        match seed_class(
            &mut out,
            &mut union,
            UPPERS.as_slice(),
            Ghost(classes),
            Ghost(done),
            Ghost(CharClass::Upper),
        ) {
            Ok(()) => {},
            Err(e) => { return Err(e); },
        }
        proof {
            done = done.with(CharClass::Upper);
        }
    }
    if classes.lower {
        match seed_class(
            &mut out,
            &mut union,
            LOWERS.as_slice(),
            Ghost(classes),
            Ghost(done),
            Ghost(CharClass::Lower),
        ) {
            Ok(()) => {},
            Err(e) => { return Err(e); },
        }
        proof {
            done = done.with(CharClass::Lower);
        }
    }
    if classes.digit {
        match seed_class(
            &mut out,
            &mut union,
            DIGITS.as_slice(),
            Ghost(classes),
            Ghost(done),
            Ghost(CharClass::Digit),
        ) {
            Ok(()) => {},
            Err(e) => { return Err(e); },
        }
        proof {
            done = done.with(CharClass::Digit);
        }
    }
    if classes.special {
        match seed_class(
            &mut out,
            &mut union,
            SPECIALS.as_slice(),
            Ghost(classes),
            Ghost(done),
            Ghost(CharClass::Special),
        ) {
            Ok(()) => {},
            Err(e) => { return Err(e); },
        }
        proof {
            done = done.with(CharClass::Special);
        }
    }
    assert(done == classes);
    Ok((out, union))
}

/// Fills a seeded password up to its length with bytes from the pools of
/// all classes that are switched on.
fn fill_up(seeds: Vec<u8>, union: &Vec<u8>, len: usize, Ghost(classes): Ghost<Classes>) -> (r:
    Result<Vec<u8>, VaultError>)
    requires
        seeded(seeds@, union@, classes, classes),
        0 < classes.count() <= len,
    ensures
        match r {
            Ok(out) => is_password(out@, len, classes),
            Err(e) => e == VaultError::Crypto,
        },
{
    let mut out = seeds;
    while out.len() < len
        invariant
            out@.len() <= len,
            0 < union@.len() <= 100,
            all_in_union(union@, classes),
            all_in_union(out@, classes),
            forall|class: CharClass| classes.has(class) ==> has_class(out@, class),
        decreases len - out@.len(),
    {
        match pick_one(union.as_slice()) {
            Ok(c) => {
                proof {
                    assert forall|class: CharClass| has_class(out@, class) implies has_class(
                        out@.push(c),
                        class,
                    ) by {
                        lemma_push_keeps_class(out@, c, class);
                    }
                }
                out.push(c);
            },
            Err(_) => { return Err(VaultError::Crypto); },
        }
    }
    Ok(out)
}

/// Generates the bytes of a password: one character from each class that
/// is switched on, the rest from all of them together, and the whole then
/// shuffled, with every choice drawn by `rand_index`.
///
/// It fails with `Validation` exactly on the requests that
/// `request_refused` names, and with `Crypto` where the random source
/// fails.
pub fn gen_password_bytes(len: usize, classes: Classes) -> (r: Result<Vec<u8>, VaultError>)
    ensures
        match r {
            Ok(bytes) => !request_refused(len, classes) && is_password(bytes@, len, classes),
            Err(e) => if request_refused(len, classes) {
                e == VaultError::Validation
            } else {
                e == VaultError::Crypto
            },
        },
{
    let mut count: usize = 0;
    if classes.upper {
        count += 1;
    }
    if classes.lower {
        count += 1;
    }
    if classes.digit {
        count += 1;
    }
    if classes.special {
        count += 1;
    }
    if count == 0 || len < count || len > 0xFFFF_FFFF {
        return Err(VaultError::Validation);
    }
    let (seeds, union) = match seed_classes(classes) {
        Ok(pair) => pair,
        Err(e) => { return Err(e); },
    };
    let filled = match fill_up(seeds, &union, len, Ghost(classes)) {
        Ok(out) => out,
        Err(e) => { return Err(e); },
    };
    shuffle(filled, Ghost(classes))
}

/// Generates a password of `len` characters over the classes that are not
/// switched off, and hands it out under guard.
///
/// On success the password has exactly `len` ASCII characters, each from a
/// class that is switched on, and at least one from every such class. It
/// fails with `Validation` exactly on the requests that `request_refused`
/// names, and with `Crypto` where the random source fails.
pub fn gen_password(
    len: usize,
    no_upper: bool,
    no_lower: bool,
    no_digits: bool,
    no_specials: bool,
) -> (r: Result<SecretString, VaultError>)
    ensures
        match r {
            Ok(password) => {
                let classes = Classes::without(no_upper, no_lower, no_digits, no_specials);
                &&& !request_refused(len, classes)
                &&& password@.len() == len
                &&& is_password(ascii_bytes(password@), len, classes)
                &&& password@ == ascii_text(ascii_bytes(password@))
            },
            Err(e) => if request_refused(
                len,
                Classes::without(no_upper, no_lower, no_digits, no_specials),
            ) {
                e == VaultError::Validation
            } else {
                e == VaultError::Crypto
            },
        },
{
    let classes = Classes {
        upper: !no_upper,
        lower: !no_lower,
        digit: !no_digits,
        special: !no_specials,
    };
    match gen_password_bytes(len, classes) {
        Ok(bytes) => {
            proof {
                assert forall|i: int| 0 <= i < bytes@.len() implies #[trigger] bytes@[i] < 128 by {
                    assert(in_union(bytes@[i], classes));
                }
                assert(ascii_bytes(ascii_text(bytes@)) =~= bytes@);
            }
            let text = string_of_ascii(bytes);
            Ok(SecretString::new(text))
        },
        Err(e) => Err(e),
    }
}

} // verus!
