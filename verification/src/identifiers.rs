//! Session identifiers: 128-bit numbers that grow with every session, and their text form.

use std::time::{Duration, UNIX_EPOCH};
use ulid::{Generator, MonotonicError, Ulid};
use vstd::arithmetic::power::pow;
use vstd::prelude::*;

use crate::times::SECOND;

verus! {

/// How many characters the text of an identifier has.
pub const TEXT_LEN: usize = 26;

/// How many values the random part of an identifier can have: the time part stands above it.
pub const RANDOM_PART: u128 = 0x1_0000_0000_0000_0000_0000;

/// How many values the time part of an identifier can have, in milliseconds.
pub const TIME_PART: u64 = 0x1_0000_0000_0000;

/// The first point in time that the time part of an identifier has no room for, in nanoseconds
/// since the Unix epoch. From then on identifiers may fall behind earlier ones.
pub const END_OF_IDENTIFIERS: i128 = 281_474_976_710_656_000_000;

/// The symbol of a base-32 digit in Crockford's alphabet: `0-9`, then the upper-case letters
/// without `I`, `L`, `O` and `U`.
pub open spec fn symbol(digit: int) -> char {
    (if digit < 10 {
        digit + 48  // 0-9
    } else if digit < 18 {
        digit + 55  // A-H
    } else if digit < 20 {
        digit + 56  // J, K
    } else if digit < 22 {
        digit + 57  // M, N
    } else if digit < 27 {
        digit + 58  // P-T
    } else {
        digit + 59  // V-Z
    }) as char
}

/// Whether a character stands for a base-32 digit; letters do so in either case.
pub open spec fn stands_for(c: char, digit: int) -> bool {
    &&& 0 <= digit < 32
    &&& c == symbol(digit) || (digit >= 10 && c as int == symbol(digit) as int + 32)
}

/// Whether a character stands for any base-32 digit.
pub open spec fn is_symbol(c: char) -> bool {
    exists|digit: int| stands_for(c, digit)
}

/// The digit that a character stands for.
pub open spec fn digit_of(c: char) -> int {
    choose|digit: int| stands_for(c, digit)
}

/// The `len` lowest base-32 digits of a number, the highest of them first.
pub open spec fn base32(value: nat, len: nat) -> Seq<char>
    decreases len,
{
    if len == 0 {
        Seq::empty()
    } else {
        base32(value / 32, (len - 1) as nat).push(symbol((value % 32) as int))
    }
}

/// The number that base-32 digits spell, the highest of them first.
pub open spec fn base32_value(text: Seq<char>) -> int
    decreases text.len(),
{
    if text.len() == 0 {
        0
    } else {
        base32_value(text.drop_last()) * 32 + digit_of(text.last())
    }
}

/// The text of an identifier.
pub open spec fn identifier_text(id: u128) -> Seq<char> {
    base32(id as nat, TEXT_LEN as nat)
}

/// The identifier that a text spells, if it spells one. The text has room for two bits more than
/// an identifier; they are dropped.
pub open spec fn identifier_spelled(text: Seq<char>) -> Option<u128> {
    if text.len() == TEXT_LEN && forall|i: int| 0 <= i < text.len() ==> is_symbol(#[trigger] text[i]) {
        Some((base32_value(text) % (u128::MAX + 1)) as u128)
    } else {
        None
    }
}

/// Whether `a` comes before `b` in the order of strings.
pub open spec fn text_before(a: Seq<char>, b: Seq<char>) -> bool {
    exists|i: int|
        {
            &&& 0 <= i < a.len()
            &&& i < b.len()
            &&& a.take(i) == b.take(i)
            &&& #[trigger] a[i] < b[i]
        }
}

/// `Ulid::to_string`: the 26 digits of the identifier in Crockford's base 32.
#[verifier::external_body]
pub(crate) fn write_identifier(id: u128) -> (text: String)
    ensures
        text@ == identifier_text(id),
{
    Ulid(id).to_string()
}

/// `Ulid::from_string`: reads 26 digits of Crockford's base 32, letters in either case, and refuses
/// a text of another length or with another character.
#[verifier::external_body]
pub(crate) fn read_identifier(text: &str) -> (id: Option<u128>)
    ensures
        id == identifier_spelled(text@),
{
    match Ulid::from_string(text) {
        Ok(id) => Some(id.0),
        Err(_) => None,
    }
}

/// `ulid::Generator`, which holds the identifier that it gave out last.
#[verifier::external_type_specification]
#[verifier::external_body]
pub struct ExGenerator(Generator);

/// `ulid::MonotonicError`, which a generator gives when the random part cannot grow any further.
#[verifier::external_type_specification]
#[verifier::external_body]
pub struct ExMonotonicError(MonotonicError);

/// What a generator holds: the identifier that it gave out last, or zero.
pub uninterp spec fn held_identifier(generator: Generator) -> u128;

/// `Generator::new`: a generator that has given out no identifier.
pub assume_specification[ Generator::new ]() -> (generator: Generator)
    ensures
        held_identifier(generator) == 0,
;

/// Milliseconds since the Unix epoch of a point in time; none before it.
pub open spec fn epoch_millis(time: int) -> int {
    if time < 0 {
        0
    } else {
        time / 1_000_000
    }
}

/// Whether a generator that holds `last` has no identifier left for a time.
pub open spec fn exhausted(last: u128, millis: int) -> bool {
    &&& millis <= last as int / RANDOM_PART as int
    &&& last % RANDOM_PART == RANDOM_PART - 1
}

/// Whether `id` may follow `last` at a time: while the clock has not moved past the time part of
/// `last`, it is the next number; after that its time part is the clock's, as far as it has room
/// for it, and its random part is free.
pub open spec fn follows(last: u128, millis: int, id: u128) -> bool {
    if millis <= last as int / RANDOM_PART as int {
        id == last + 1
    } else {
        id as int / RANDOM_PART as int == millis % TIME_PART as int
    }
}

/// `Generator::generate_from_datetime`, which is what `Generator::generate` does with the current
/// time: gives out an identifier that follows the one held, and holds it from then on; or an error,
/// if it is exhausted. The time is so many seconds before the Unix epoch, or after it, and so many
/// nanoseconds more; seconds that the machine counts in 64 bits with a sign have such a time. One
/// before the epoch counts as the epoch.
#[verifier::external_body]
pub(crate) fn generate_identifier(
    generator: &mut Generator,
    back: u64,
    forward: u64,
    nanos: u32,
) -> (id: Result<u128, MonotonicError>)
    requires
        back == 0 || forward == 0,
        back <= 0x8000_0000_0000_0000,
        forward < 0x8000_0000_0000_0000,
        nanos < 1_000_000_000,
    ensures
        ({
            let last = held_identifier(*old(generator));
            let millis = epoch_millis((forward - back) * SECOND + nanos);
            match id {
                Ok(id) => {
                    &&& !exhausted(last, millis)
                    &&& follows(last, millis, id)
                    &&& held_identifier(*final(generator)) == id
                },
                Err(_) => {
                    &&& exhausted(last, millis)
                    &&& held_identifier(*final(generator)) == last
                },
            }
        }),
{
    let time = UNIX_EPOCH - Duration::from_secs(back) + Duration::new(forward, nanos);
    match generator.generate_from_datetime(time) {
        Ok(id) => Ok(id.0),
        Err(error) => Err(error),
    }
}

/// An identifier that follows another is larger, as long as identifiers have room for the time.
pub proof fn law_identifiers_grow(last: u128, time: int, id: u128)
    requires
        time < END_OF_IDENTIFIERS,
        follows(last, epoch_millis(time), id),
    ensures
        last < id,
{
}

/// The symbols of different digits differ, in either case, and are ordered as the digits are.
proof fn lemma_symbols()
    ensures
        forall|a: int, b: int| 0 <= a < b < 32 ==> symbol(a) < symbol(b),
        forall|c: char, a: int, b: int| stands_for(c, a) && stands_for(c, b) ==> a == b,
        forall|a: int| 0 <= a < 32 ==> #[trigger] stands_for(symbol(a), a),
{
}

/// Base-32 digits spell the number that they were written for.
proof fn lemma_base32_round_trip(value: nat, len: nat)
    requires
        value < pow(32, len),
    ensures
        base32(value, len).len() == len,
        forall|i: int| 0 <= i < len ==> is_symbol(#[trigger] base32(value, len)[i]),
        base32_value(base32(value, len)) == value,
    decreases len,
{
    reveal(pow);
    lemma_symbols();
    if len > 0 {
        let rest = base32(value / 32, (len - 1) as nat);
        lemma_base32_round_trip(value / 32, (len - 1) as nat);
        assert(stands_for(symbol((value % 32) as int), (value % 32) as int));
        assert(base32(value, len).drop_last() == rest);
    }
}

/// Base-32 digits are ordered as the numbers that they were written for.
proof fn lemma_base32_order(a: nat, b: nat, len: nat)
    requires
        a < b < pow(32, len),
    ensures
        base32(a, len).len() == len,
        base32(b, len).len() == len,
        text_before(base32(a, len), base32(b, len)),
    decreases len,
{
    reveal(pow);
    lemma_symbols();
    let (s, t) = (base32(a, len), base32(b, len));
    let (s1, t1) = (base32(a / 32, (len - 1) as nat), base32(b / 32, (len - 1) as nat));
    if a / 32 < b / 32 {
        lemma_base32_order(a / 32, b / 32, (len - 1) as nat);
        let i = choose|i: int|
            {
                &&& 0 <= i < s1.len()
                &&& i < t1.len()
                &&& s1.take(i) == t1.take(i)
                &&& #[trigger] s1[i] < t1[i]
            };
        assert(s.take(i) == s1.take(i));
        assert(t.take(i) == t1.take(i));
        assert(s[i] < t[i]);
    } else {
        lemma_base32_round_trip(a / 32, (len - 1) as nat);
        assert(s1 == t1);
        assert(s.take(len - 1) == s1);
        assert(t.take(len - 1) == t1);
        assert(s[len - 1] < t[len - 1]);
    }
}

/// Every identifier fits in its digits.
proof fn lemma_identifier_fits(id: u128)
    ensures
        (id as nat) < pow(32, TEXT_LEN as nat),
{
    reveal_with_fuel(pow, 27);
}

/// The text of an identifier spells that identifier.
pub proof fn law_identifier_round_trip(id: u128)
    ensures
        identifier_text(id).len() == TEXT_LEN,
        identifier_spelled(identifier_text(id)) == Some(id),
{
    lemma_identifier_fits(id);
    lemma_base32_round_trip(id as nat, TEXT_LEN as nat);
}

/// The texts of identifiers are ordered as the identifiers are, and so are never the same for two
/// of them.
pub proof fn law_identifier_order(a: u128, b: u128)
    requires
        a < b,
    ensures
        text_before(identifier_text(a), identifier_text(b)),
        identifier_text(a) != identifier_text(b),
{
    lemma_identifier_fits(b);
    lemma_base32_order(a as nat, b as nat, TEXT_LEN as nat);
}

} // verus!
