//! Checkpoint identifiers: 128-bit numbers written as ULIDs.

use vstd::prelude::*;
use vstd::string::StringSliceAdditionalSpecFns;

use crate::text::{chars_of, has_prefix};

verus! {

/// The 32 letters of Crockford's base 32.
pub open spec fn alphabet() -> Seq<char> {
    "0123456789ABCDEFGHJKMNPQRSTVWXYZ"@
}

/// The last `width` letters of `n` in base 32.
pub open spec fn letters(n: nat, width: nat) -> Seq<char>
    decreases width,
{
    if width == 0 {
        Seq::empty()
    } else {
        letters(n / 32, (width - 1) as nat).push(alphabet()[(n % 32) as int])
    }
}

/// A ULID as text: 26 letters.
pub open spec fn ulid_text(id: u128) -> Seq<char> {
    letters(id as nat, 26)
}

/// The place of a letter of either case in the alphabet; 32 where it is none.
pub open spec fn letter_value(b: u8) -> int {
    crate::text::first_index(alphabet(), (if 97 <= b <= 122 { b - 32 } else { b as int }) as char)
}

/// The number that letters denote in base 32.
pub open spec fn letters_value(s: Seq<u8>) -> nat
    decreases s.len(),
{
    if s.len() == 0 {
        0
    } else {
        (letters_value(s.drop_last()) * 32 + letter_value(s.last())) as nat
    }
}

/// The number that the bytes of a ULID denote: there are 26 of them, each is a
/// letter, and of the number the lowest 128 bits count.
pub open spec fn ulid_value(s: Seq<u8>) -> Option<u128> {
    if s.len() == 26 && forall|i: int| 0 <= i < s.len() ==> letter_value(#[trigger] s[i]) < 32 {
        Some((letters_value(s) % (u128::MAX as nat + 1)) as u128)
    } else {
        None
    }
}

/// `ulid::Ulid::to_string` writes the number in 26 letters of base 32.
#[verifier::external_body]
pub(crate) fn ulid_to_string(id: u128) -> (s: String)
    ensures
        s@ == ulid_text(id),
{
    ulid::Ulid(id).to_string()
}

/// `ulid::Ulid::from_string` reads 26 letters of base 32, of either case, and drops
/// what exceeds 128 bits.
#[verifier::external_body]
pub(crate) fn ulid_from_string(text: &str) -> (r: Option<u128>)
    ensures
        r == ulid_value(text.spec_bytes()),
{
    ulid::Ulid::from_string(text).ok().map(|u| u.0)
}

/// The text of an identifier.
pub fn id_text(id: u128) -> (s: String)
    ensures
        s@ == ulid_text(id),
{
    ulid_to_string(id)
}

/// The identifier that a text denotes.
pub fn parse_id(text: &str) -> (r: Option<u128>)
    ensures
        r == ulid_value(text.spec_bytes()),
{
    ulid_from_string(text)
}

/// The first eight letters of an identifier.
pub fn short_id(id: u128) -> (s: String)
    ensures
        s@ == ulid_text(id).take(8),
{
    let text = chars_of(ulid_to_string(id).as_str());
    proof {
        lemma_letters(id as nat, 26);
    }
    let short = crate::text::chars_between(text.as_slice(), 0, 8);
    assert(short@ =~= ulid_text(id).take(8));
    crate::text::string_of(short.as_slice())
}

/// Whether the text of an identifier begins with the given characters.
pub fn id_has_prefix(id: u128, prefix: &[char]) -> (r: bool)
    ensures
        r == crate::text::begins_with(ulid_text(id), prefix@),
{
    let text = chars_of(ulid_to_string(id).as_str());
    has_prefix(text.as_slice(), prefix)
}

/// A letter stands at its own place in the alphabet and is plain ASCII.
proof fn lemma_alphabet(d: int)
    requires
        0 <= d < 32,
    ensures
        alphabet().len() == 32,
        '0' <= alphabet()[d] <= 'Z',
        letter_value(alphabet()[d] as u8) == d,
{
    reveal_strlit("0123456789ABCDEFGHJKMNPQRSTVWXYZ");
    let c = alphabet()[d];
    assert((c as u8) as char == c);
    assert forall|j: int| 0 <= j < d implies #[trigger] alphabet()[j] != c by {
        assert(alphabet()[j] < c);
    }
    crate::text::lemma_first_index(alphabet(), c, d);
}

/// The letters of a number are as many as asked for, are plain ASCII and stand in
/// the alphabet.
proof fn lemma_letters(n: nat, width: nat)
    ensures
        letters(n, width).len() == width,
        forall|i: int|
            0 <= i < width ==> '0' <= #[trigger] letters(n, width)[i] <= 'Z' && letter_value(
                letters(n, width)[i] as u8,
            ) < 32,
    decreases width,
{
    if width > 0 {
        lemma_letters(n / 32, (width - 1) as nat);
        lemma_alphabet((n % 32) as int);
        assert forall|i: int| 0 <= i < width implies '0' <= #[trigger] letters(n, width)[i] <= 'Z' && letter_value(
            letters(n, width)[i] as u8,
        ) < 32 by {
            if i < width - 1 {
                assert(letters(n, width)[i] == letters(n / 32, (width - 1) as nat)[i]);
            }
        }
    }
}

/// `32` to the power `k`.
spec fn pow32(k: nat) -> nat
    decreases k,
{
    if k == 0 {
        1
    } else {
        32 * pow32((k - 1) as nat)
    }
}

/// The letters of a number that fits denote the number.
proof fn lemma_letters_value(n: nat, width: nat)
    requires
        n < pow32(width),
    ensures
        letters_value(letters(n, width).map_values(|c: char| c as u8)) == n,
    decreases width,
{
    let bytes = letters(n, width).map_values(|c: char| c as u8);
    if width > 0 {
        let w1 = (width - 1) as nat;
        lemma_letters(n, width);
        lemma_letters(n / 32, w1);
        lemma_alphabet((n % 32) as int);
        lemma_letters_value(n / 32, w1);
        assert(bytes.drop_last() =~= letters(n / 32, w1).map_values(|c: char| c as u8));
    }
}

/// The text of an identifier has 26 characters, all of them digits or capitals.
pub proof fn id_text_is_plain(id: u128)
    ensures
        ulid_text(id).len() == 26,
        forall|i: int| 0 <= i < 26 ==> '0' <= #[trigger] ulid_text(id)[i] <= 'Z',
{
    lemma_letters(id as nat, 26);
}

/// The text of an identifier denotes the identifier.
pub proof fn id_round_trip(id: u128)
    ensures
        ulid_value(vstd::utf8::encode_utf8(ulid_text(id))) == Some(id),
{
    let text = ulid_text(id);
    lemma_letters(id as nat, 26);
    assert(vstd::utf8::is_ascii_chars(text)) by {
        assert forall|i: int| 0 <= i < text.len() implies '\0' <= #[trigger] text[i] <= '\u{7f}' by {
            assert('0' <= letters(id as nat, 26)[i] <= 'Z');
        }
    }
    vstd::utf8::is_ascii_chars_encode_utf8(text);
    let bytes = vstd::utf8::encode_utf8(text);
    assert(bytes =~= text.map_values(|c: char| c as u8));
    reveal_with_fuel(pow32, 27);
    lemma_letters_value(id as nat, 26);
    assert forall|i: int| 0 <= i < bytes.len() implies letter_value(#[trigger] bytes[i]) < 32 by {
        assert(bytes[i] == letters(id as nat, 26)[i] as u8);
    }
    assert(letters_value(bytes) == id as nat);
    vstd::arithmetic::div_mod::lemma_small_mod(id as nat, (u128::MAX as nat + 1) as nat);
}

/// The first word of a text that is an identifier.
pub open spec fn first_ulid(words: Seq<Seq<char>>) -> Option<Seq<char>>
    decreases words.len(),
{
    if words.len() == 0 {
        None
    } else if ulid_value(vstd::utf8::encode_utf8(words[0])) is Some {
        Some(words[0])
    } else {
        first_ulid(words.drop_first())
    }
}

/// Finds the first word of a text that is an identifier.
pub fn extract_ulid(text: &str) -> (r: Option<String>)
    ensures
        crate::git_config::opt_text(r) == first_ulid(crate::text::words(text@)),
{
    let chars = chars_of(text);
    let parts = crate::text::split_words(chars.as_slice());
    let ghost all = crate::text::words(text@);
    let mut i: usize = 0;
    assert(all.skip(0) =~= all);
    while i < parts.len()
        invariant
            i <= parts.len(),
            all == crate::text::deep(parts@),
            all == crate::text::words(text@),
            first_ulid(all) == first_ulid(all.skip(i as int)),
        decreases parts.len() - i,
    {
        assert(all.skip(i as int)[0] == parts@[i as int]@);
        let word = crate::text::string_of(parts[i].as_slice());
        assert(word@ == all.skip(i as int)[0]);
        match parse_id(word.as_str()) {
            Some(_) => {
                return Some(word);
            },
            None => {},
        }
        assert(all.skip(i as int).drop_first() =~= all.skip(i + 1));
        i = i + 1;
    }
    assert(all.skip(i as int) =~= Seq::empty());
    None
}

/// The identifier in a text is its first word that is one; there is none exactly where no
/// word is.
pub proof fn first_identifier_is_found(words: Seq<Seq<char>>)
    ensures
        first_ulid(words) is None <==> forall|j: int|
            0 <= j < words.len() ==> ulid_value(vstd::utf8::encode_utf8(#[trigger] words[j])) is None,
        first_ulid(words) is Some ==> exists|i: int|
            0 <= i < words.len() && first_ulid(words) == Some(#[trigger] words[i]) && ulid_value(
                vstd::utf8::encode_utf8(words[i]),
            ) is Some && forall|j: int| 0 <= j < i ==> ulid_value(vstd::utf8::encode_utf8(#[trigger] words[j])) is None,
    decreases words.len(),
{
    if words.len() > 0 {
        if ulid_value(vstd::utf8::encode_utf8(words[0])) is Some {
            assert(first_ulid(words) == Some(words[0]));
        } else {
            let t = words.drop_first();
            first_identifier_is_found(t);
            if first_ulid(t) is Some {
                let i = choose|i: int|
                    0 <= i < t.len() && first_ulid(t) == Some(#[trigger] t[i]) && ulid_value(
                        vstd::utf8::encode_utf8(t[i]),
                    ) is Some && forall|j: int|
                        0 <= j < i ==> ulid_value(vstd::utf8::encode_utf8(#[trigger] t[j])) is None;
                assert(words[i + 1] == t[i]);
                assert forall|j: int| 0 <= j < i + 1 implies ulid_value(
                    vstd::utf8::encode_utf8(#[trigger] words[j]),
                ) is None by {
                    if j > 0 {
                        assert(words[j] == t[j - 1]);
                    }
                }
            } else {
                assert forall|j: int| 0 <= j < words.len() implies ulid_value(
                    vstd::utf8::encode_utf8(#[trigger] words[j]),
                ) is None by {
                    if j > 0 {
                        assert(words[j] == t[j - 1]);
                    }
                }
            }
        }
    }
}

/// Different identifiers have different texts.
pub proof fn id_texts_differ(a: u128, b: u128)
    requires
        ulid_text(a) == ulid_text(b),
    ensures
        a == b,
{
    id_round_trip(a);
    id_round_trip(b);
}

} // verus!
