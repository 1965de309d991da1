//! Text in payloads: NUL-terminated strings, lists of strings, and numbers.

use vstd::prelude::*;
use vstd::string::StrSliceExecFns;
use vstd::utf8::{encode_scalar, encode_utf8};

use crate::error::XsError;

verus! {

/// Whether `text` holds a NUL.
pub open spec fn has_nul(text: Seq<char>) -> bool {
    text.contains('\0')
}

/// Only the NUL character has a zero byte in its encoding.
proof fn lemma_scalar_nul(c: char)
    ensures
        encode_scalar(c as u32).contains(0u8) <==> c == '\0',
{
    let v = c as u32;
    let bytes = encode_scalar(v);
    vstd::utf8::char_is_scalar(c);
    assert(v <= 0x7F ==> (v & 0x7F) == v) by (bit_vector);
    assert(0xC0u8 | ((v >> 6) & 0x1F) as u8 != 0) by (bit_vector);
    assert(0xE0u8 | ((v >> 12) & 0x0F) as u8 != 0) by (bit_vector);
    assert(0xF0u8 | ((v >> 18) & 0x7) as u8 != 0) by (bit_vector);
    assert(0x80u8 | (v & 0x3F) as u8 != 0) by (bit_vector);
    assert(0x80u8 | ((v >> 6) & 0x3F) as u8 != 0) by (bit_vector);
    assert(0x80u8 | ((v >> 12) & 0x3F) as u8 != 0) by (bit_vector);
    if c == '\0' {
        assert(bytes[0] == 0);
    }
}

/// The bytes of a text hold a zero exactly where the text holds a NUL.
proof fn lemma_encoded_nul(text: Seq<char>)
    ensures
        encode_utf8(text).contains(0u8) <==> has_nul(text),
    decreases text.len(),
{
    if text.len() > 0 {
        let head = encode_scalar(text[0] as u32);
        let rest = text.drop_first();
        let bytes = encode_utf8(text);
        lemma_scalar_nul(text[0]);
        lemma_encoded_nul(rest);
        if bytes.contains(0u8) {
            let i = choose|i: int| 0 <= i < bytes.len() && bytes[i] == 0;
            if i < head.len() {
                assert(head[i] == 0);
                assert(text[0] == '\0');
            } else {
                assert(encode_utf8(rest)[i - head.len()] == 0);
                let k = choose|k: int| 0 <= k < rest.len() && rest[k] == '\0';
                assert(text[k + 1] == '\0');
            }
        }
        if has_nul(text) {
            let k = choose|k: int| 0 <= k < text.len() && text[k] == '\0';
            if k == 0 {
                let i = choose|i: int| 0 <= i < head.len() && head[i] == 0;
                assert(bytes[i] == 0);
            } else {
                assert(rest[k - 1] == '\0');
                let tail = encode_utf8(rest);
                let i = choose|i: int| 0 <= i < tail.len() && tail[i] == 0;
                assert(bytes[head.len() + i] == 0);
            }
        }
    }
}

/// Text is encoded piece by piece.
pub(crate) proof fn lemma_encode_concat(front: Seq<char>, back: Seq<char>)
    ensures
        encode_utf8(front + back) == encode_utf8(front) + encode_utf8(back),
    decreases front.len(),
{
    if front.len() == 0 {
        assert(front + back =~= back);
        assert(encode_utf8(front) + encode_utf8(back) =~= encode_utf8(back));
    } else {
        lemma_encode_concat(front.drop_first(), back);
        assert((front + back).drop_first() =~= front.drop_first() + back);
        assert(encode_utf8(front + back) =~= encode_utf8(front) + encode_utf8(back));
    }
}

/// A NUL is encoded as a zero byte.
pub(crate) proof fn lemma_encode_nul()
    ensures
        encode_utf8(seq!['\0']) == seq![0u8],
{
    assert(0u32 & 0x7F == 0) by (bit_vector);
    assert(seq!['\0'].drop_first() =~= seq![]);
    reveal_with_fuel(encode_utf8, 2);
    assert(encode_utf8(seq!['\0']) =~= seq![0u8]);
}

/// Whether `text` holds a NUL.
fn holds_nul(text: &str) -> (found: bool)
    ensures
        found == has_nul(text@),
{
    let bytes: &[u8] = text.as_bytes();
    let mut i: usize = 0;
    proof {
        lemma_encoded_nul(text@);
    }
    while i < bytes.len()
        invariant
            bytes@ == encode_utf8(text@),
            encode_utf8(text@).contains(0u8) <==> has_nul(text@),
            i <= bytes@.len(),
            forall|j: int| 0 <= j < i ==> bytes@[j] != 0,
        decreases bytes@.len() - i,
    {
        if bytes[i] == 0 {
            return true;
        }
        i += 1;
    }
    false
}

/// Appends the bytes of `text` to `payload`, and after them a NUL if `terminated`
/// says so. Text that holds a NUL itself could not be told from its end, and is
/// refused.
pub fn push_text(payload: &mut Vec<u8>, text: &str, terminated: bool) -> (result: Result<
    (),
    XsError,
>)
    ensures
        has_nul(text@) ==> result == Err::<(), XsError>(XsError::NulByte) && final(payload)@ == old(
            payload,
        )@,
        !has_nul(text@) ==> result == Ok::<(), XsError>(()) && final(payload)@ == old(payload)@
            + encode_utf8(text@) + (if terminated {
            seq![0u8]
        } else {
            seq![]
        }),
{
    if holds_nul(text) {
        return Err(XsError::NulByte);
    }
    payload.extend_from_slice(text.as_bytes());
    assert(payload@ =~= old(payload)@ + encode_utf8(text@));
    if terminated {
        payload.push(0);
    }
    assert(payload@ =~= old(payload)@ + encode_utf8(text@) + (if terminated {
        seq![0u8]
    } else {
        seq![]
    }));
    Ok(())
}

/// The pieces of `text` between NULs. There is always one more piece than there
/// are NULs, and a piece may be empty.
pub open spec fn split_nul(text: Seq<char>) -> Seq<Seq<char>>
    decreases text.len(),
{
    if text.len() == 0 {
        seq![seq![]]
    } else {
        let before = split_nul(text.drop_last());
        if text.last() == '\0' {
            before.push(seq![])
        } else {
            before.update(before.len() - 1, before.last().push(text.last()))
        }
    }
}

/// The pieces, with a NUL between each and the next.
pub open spec fn join_nul(pieces: Seq<Seq<char>>) -> Seq<char>
    decreases pieces.len(),
{
    if pieces.len() == 0 {
        seq![]
    } else if pieces.len() == 1 {
        pieces[0]
    } else {
        join_nul(pieces.drop_last()) + seq!['\0'] + pieces.last()
    }
}

/// Splitting a text at its NULs loses nothing, and leaves no NUL in a piece.
pub proof fn law_split_join(text: Seq<char>)
    ensures
        split_nul(text).len() > 0,
        join_nul(split_nul(text)) == text,
        forall|i: int|
            0 <= i < split_nul(text).len() ==> !has_nul(#[trigger] split_nul(text)[i]),
    decreases text.len(),
{
    let pieces = split_nul(text);
    if text.len() == 0 {
        assert(join_nul(pieces) =~= text);
    } else {
        let before = split_nul(text.drop_last());
        law_split_join(text.drop_last());
        if text.last() == '\0' {
            assert(pieces.drop_last() =~= before);
            assert(join_nul(pieces) =~= text);
        } else {
            let last = before.last();
            assert(pieces.drop_last() =~= before.drop_last());
            assert(pieces.last() == last.push(text.last()));
            assert(join_nul(pieces) =~= join_nul(before).push(text.last()));
            assert(join_nul(pieces) =~= text);
            assert forall|i: int| 0 <= i < pieces.len() implies !has_nul(
                #[trigger] pieces[i],
            ) by {
                if i == pieces.len() - 1 {
                    assert(!has_nul(before[i]));
                    if has_nul(pieces[i]) {
                        let k = choose|k: int|
                            0 <= k < pieces[i].len() && pieces[i][k] == '\0';
                        assert(last[k] == '\0');
                    }
                } else {
                    assert(!has_nul(before[i]));
                }
            }
        }
    }
}

/// Strings without NULs are got back from the text that lists them.
pub proof fn law_join_split(pieces: Seq<Seq<char>>)
    requires
        pieces.len() > 0,
        forall|i: int| 0 <= i < pieces.len() ==> !has_nul(#[trigger] pieces[i]),
    ensures
        split_nul(join_nul(pieces)) == pieces,
    decreases pieces.len(), pieces.last().len(),
{
    let text = join_nul(pieces);
    let last = pieces.last();
    if last.len() > 0 {
        let shorter = pieces.update(pieces.len() - 1, last.drop_last());
        assert forall|i: int| 0 <= i < shorter.len() implies !has_nul(#[trigger] shorter[i]) by {
            assert(!has_nul(pieces[i]));
            if has_nul(shorter[i]) {
                let k = choose|k: int| 0 <= k < shorter[i].len() && shorter[i][k] == '\0';
                assert(pieces[i][k] == '\0');
            }
        }
        law_join_split(shorter);
        assert(shorter.drop_last() =~= pieces.drop_last());
        assert(text.drop_last() =~= join_nul(shorter));
        assert(text.last() == last.last());
        assert(!has_nul(pieces[pieces.len() - 1]));
        assert(last[last.len() - 1] == last.last());
        assert(last.drop_last().push(last.last()) =~= last);
        assert(split_nul(text) =~= pieces);
    } else if pieces.len() == 1 {
        assert(text =~= seq![]);
        assert(split_nul(text) =~~= pieces);
    } else {
        assert forall|i: int| 0 <= i < pieces.drop_last().len() implies !has_nul(
            #[trigger] pieces.drop_last()[i],
        ) by {
            assert(!has_nul(pieces[i]));
        }
        law_join_split(pieces.drop_last());
        assert(text.drop_last() =~= join_nul(pieces.drop_last()));
        assert(text.last() == '\0');
        assert(split_nul(text) =~~= pieces);
    }
}

/// The characters of `text`.
fn chars_of(text: &str) -> (chars: Vec<char>)
    ensures
        chars@ == text@,
{
    let mut chars: Vec<char> = Vec::new();
    for c in it: text.chars()
        invariant
            it.seq() == text@,
            chars@ == text@.take(it.index()),
    {
        chars.push(c);
        assert(chars@ =~= text@.take(it.index() + 1));
    }
    assert(chars@ =~= text@);
    chars
}

/// The texts of a list of strings.
pub open spec fn texts(pieces: Seq<&str>) -> Seq<Seq<char>> {
    pieces.map_values(|piece: &str| piece@)
}

/// Splits `text` at its NULs.
pub fn split<'a>(text: &'a str) -> (pieces: Vec<&'a str>)
    ensures
        texts(pieces@) == split_nul(text@),
{
    let chars: Vec<char> = chars_of(text);
    let mut pieces: Vec<&'a str> = Vec::new();
    let mut start: usize = 0;
    let mut i: usize = 0;
    assert(text@.take(0) =~= seq![]);
    assert(split_nul(text@.take(0)) =~= texts(pieces@).push(text@.subrange(0, 0)));
    while i < chars.len()
        invariant
            chars@ == text@,
            start <= i <= chars@.len(),
            split_nul(text@.take(i as int)) == texts(pieces@).push(
                text@.subrange(start as int, i as int),
            ),
        decreases chars@.len() - i,
    {
        let ghost done = text@.take(i as int);
        let ghost next = text@.take(i + 1);
        let ghost old_texts = texts(pieces@);
        assert(next.drop_last() =~= done);
        if chars[i] == '\0' {
            pieces.push(text.substring_char(start, i));
            start = i + 1;
            assert(text@.subrange(i + 1, i + 1) =~= seq![]);
            assert(texts(pieces@) =~= split_nul(done));
            assert(split_nul(next) =~= texts(pieces@).push(text@.subrange(i + 1, i + 1)));
        } else {
            assert(text@.subrange(start as int, i + 1) =~= text@.subrange(
                start as int,
                i as int,
            ).push(chars@[i as int]));
            assert(split_nul(next) =~= old_texts.push(text@.subrange(start as int, i + 1)));
        }
        i += 1;
    }
    assert(text@.take(i as int) =~= text@);
    pieces.push(text.substring_char(start, i));
    assert(texts(pieces@) =~= split_nul(text@));
    pieces
}

/// Whether `c` is a decimal digit.
pub open spec fn is_digit(c: char) -> bool {
    '0' <= c <= '9'
}

/// The number that a row of decimal digits stands for.
pub open spec fn decimal(digits: Seq<char>) -> nat
    decreases digits.len(),
{
    if digits.len() == 0 {
        0
    } else {
        10 * decimal(digits.drop_last()) + (digits.last() as nat - '0' as nat) as nat
    }
}

/// The digits of a number, without its sign.
pub open spec fn unsigned_part(text: Seq<char>) -> Seq<char> {
    if text.len() > 0 && (text[0] == '-' || text[0] == '+') {
        text.skip(1)
    } else {
        text
    }
}

/// The number that `text` stands for: a sign or none, then one or more decimal
/// digits and nothing else, in the range of a 32-bit integer.
pub open spec fn number_of(text: Seq<char>) -> Option<i32> {
    let digits = unsigned_part(text);
    let value = if text.len() > 0 && text[0] == '-' {
        -(decimal(digits) as int)
    } else {
        decimal(digits) as int
    };
    if digits.len() > 0 && (forall|i: int| 0 <= i < digits.len() ==> is_digit(#[trigger] digits[i]))
        && i32::MIN <= value <= i32::MAX {
        Some(value as i32)
    } else {
        None
    }
}

/// More digits never make a smaller number.
proof fn lemma_decimal_grows(digits: Seq<char>, i: int)
    requires
        0 <= i <= digits.len(),
    ensures
        decimal(digits.take(i)) <= decimal(digits),
    decreases digits.len(),
{
    if i == digits.len() {
        assert(digits.take(i) =~= digits);
    } else {
        lemma_decimal_grows(digits.drop_last(), i);
        assert(digits.drop_last().take(i) =~= digits.take(i));
    }
}

/// Reads a number.
pub fn parse_i32(text: &str) -> (number: Option<i32>)
    ensures
        number == number_of(text@),
{
    let chars: Vec<char> = chars_of(text);
    let negative: bool = chars.len() > 0 && chars[0] == '-';
    let signed: bool = chars.len() > 0 && (chars[0] == '-' || chars[0] == '+');
    let first: usize = if signed {
        1
    } else {
        0
    };
    let ghost digits = unsigned_part(text@);
    if first == chars.len() {
        return None;
    }
    let limit: u64 = if negative {
        0x8000_0000
    } else {
        0x7fff_ffff
    };
    let mut magnitude: u64 = 0;
    let mut i: usize = first;
    assert(digits.take(0) =~= seq![]);
    while i < chars.len()
        invariant
            chars@ == text@,
            first <= i <= chars@.len(),
            first <= 1,
            digits == unsigned_part(text@),
            digits.len() == chars@.len() - first,
            forall|j: int| 0 <= j < digits.len() ==> digits[j] == #[trigger] chars@[first + j],
            negative == (chars@.len() > 0 && chars@[0] == '-'),
            limit == (if negative {
                0x8000_0000u64
            } else {
                0x7fff_ffffu64
            }),
            magnitude <= limit,
            magnitude == decimal(digits.take(i - first)),
            forall|j: int| 0 <= j < i - first ==> is_digit(#[trigger] digits[j]),
        decreases chars@.len() - i,
    {
        let c: char = chars[i];
        assert(digits[i - first] == chars@[first + (i - first)]);
        if !('0' <= c && c <= '9') {
            assert(!is_digit(digits[i - first]));
            return None;
        }
        assert(digits.take(i - first + 1).drop_last() =~= digits.take(i - first));
        magnitude = magnitude * 10 + (c as u64 - '0' as u64);
        if magnitude > limit {
            proof {
                lemma_decimal_grows(digits, i - first + 1);
            }
            return None;
        }
        i += 1;
    }
    assert(digits.take(i - first) =~= digits);
    if negative {
        Some((0 - magnitude as i64) as i32)
    } else {
        Some(magnitude as i32)
    }
}

/// Whether a piece of a listing is one that no number can be read from.
pub open spec fn unreadable(piece: Seq<char>) -> bool {
    piece.len() > 0 && number_of(piece) is None
}

/// The numbers in a listing, leaving out its empty pieces.
pub open spec fn listed_numbers(pieces: Seq<Seq<char>>) -> Seq<i32> {
    pieces.filter(|piece: Seq<char>| piece.len() > 0).map_values(
        |piece: Seq<char>| number_of(piece)->0,
    )
}

/// What reading the pieces of a listing comes to: its numbers, or the first
/// piece that no number can be read from.
pub open spec fn listing_is(pieces: Seq<Seq<char>>, result: Result<Seq<i32>, Seq<char>>) -> bool {
    match result {
        Ok(numbers) => {
            &&& forall|i: int| 0 <= i < pieces.len() ==> !unreadable(#[trigger] pieces[i])
            &&& numbers == listed_numbers(pieces)
        },
        Err(piece) => exists|i: int|
            {
                &&& 0 <= i < pieces.len()
                &&& unreadable(#[trigger] pieces[i])
                &&& piece == pieces[i]
                &&& forall|j: int| 0 <= j < i ==> !unreadable(#[trigger] pieces[j])
            },
    }
}

/// Reads the numbers in a listing: strings separated by NULs, of which the empty
/// ones do not count. Fails with the first string that is no number.
pub fn parse_listing(text: &str) -> (result: Result<Vec<i32>, String>)
    ensures
        listing_is(
            split_nul(text@),
            match result {
                Ok(numbers) => Ok(numbers@),
                Err(piece) => Err(piece@),
            },
        ),
{
    let pieces: Vec<&str> = split(text);
    let ghost all = split_nul(text@);
    let ghost counts = |piece: Seq<char>| piece.len() > 0;
    let ghost value = |piece: Seq<char>| number_of(piece)->0;
    let mut numbers: Vec<i32> = Vec::new();
    let mut i: usize = 0;
    proof {
        reveal(Seq::filter);
        assert(all.take(0).filter(counts).map_values(value) =~= seq![]);
    }
    while i < pieces.len()
        invariant
            i <= pieces@.len(),
            all == split_nul(text@),
            all == texts(pieces@),
            counts == (|piece: Seq<char>| piece.len() > 0),
            value == (|piece: Seq<char>| number_of(piece)->0),
            forall|j: int| 0 <= j < i ==> !unreadable(#[trigger] all[j]),
            numbers@ == all.take(i as int).filter(counts).map_values(value),
        decreases pieces@.len() - i,
    {
        let piece: &str = pieces[i];
        assert(all[i as int] == piece@);
        proof {
            reveal(Seq::filter);
            assert(all.take(i + 1).drop_last() =~= all.take(i as int));
        }
        if !piece.is_empty() {
            match parse_i32(piece) {
                Some(number) => {
                    numbers.push(number);
                    assert(numbers@ =~= all.take(i + 1).filter(counts).map_values(value));
                },
                None => {
                    assert(unreadable(all[i as int]));
                    return Err(piece.to_owned());
                },
            }
        }
        i += 1;
    }
    assert(all.take(i as int) =~= all);
    Ok(numbers)
}

/// The decimal digits of a number, without leading zeros.
pub open spec fn decimal_digits(value: nat) -> Seq<char>
    decreases value,
{
    let last = ('0' as nat + value % 10) as char;
    if value < 10 {
        seq![last]
    } else {
        decimal_digits(value / 10).push(last)
    }
}

/// The decimal text of a number.
pub open spec fn decimal_text(number: i32) -> Seq<char> {
    if number < 0 {
        seq!['-'] + decimal_digits(-(number as int) as nat)
    } else {
        decimal_digits(number as nat)
    }
}

/// The digits of a number are digits, and stand for it.
proof fn lemma_decimal_digits(value: nat)
    ensures
        decimal_digits(value).len() > 0,
        forall|i: int|
            0 <= i < decimal_digits(value).len() ==> is_digit(#[trigger] decimal_digits(value)[i]),
        decimal(decimal_digits(value)) == value,
    decreases value,
{
    let digits = decimal_digits(value);
    if value < 10 {
        assert(digits.drop_last() =~= seq![]);
        assert(decimal(digits.drop_last()) == 0);
    } else {
        lemma_decimal_digits(value / 10);
        assert(digits.drop_last() =~= decimal_digits(value / 10));
    }
}

/// A number is read back from its decimal text.
pub proof fn law_number_round_trip(number: i32)
    ensures
        number_of(decimal_text(number)) == Some(number),
{
    let text = decimal_text(number);
    if number < 0 {
        let digits = decimal_digits(-(number as int) as nat);
        lemma_decimal_digits(-(number as int) as nat);
        assert(unsigned_part(text) =~= digits);
    } else {
        lemma_decimal_digits(number as nat);
        assert(is_digit(text[0]));
    }
}

/// Text that a number can be read from holds no NUL.
proof fn lemma_number_has_no_nul(text: Seq<char>)
    requires
        number_of(text) is Some,
    ensures
        text.len() > 0,
        !has_nul(text),
{
    let digits = unsigned_part(text);
    if has_nul(text) {
        let k = choose|k: int| 0 <= k < text.len() && text[k] == '\0';
        if digits == text {
            assert(is_digit(digits[k]));
        } else if k > 0 {
            assert(is_digit(digits[k - 1]));
        }
    }
}

/// Leaving out the empty pieces changes nothing where there are none.
proof fn lemma_no_empty_pieces(pieces: Seq<Seq<char>>)
    requires
        forall|i: int| 0 <= i < pieces.len() ==> (#[trigger] pieces[i]).len() > 0,
    ensures
        pieces.filter(|piece: Seq<char>| piece.len() > 0) == pieces,
    decreases pieces.len(),
{
    reveal(Seq::filter);
    if pieces.len() > 0 {
        lemma_no_empty_pieces(pieces.drop_last());
        assert(pieces.drop_last().push(pieces.last()) =~= pieces);
    }
}

/// A listing of texts that numbers can be read from is read back as those
/// numbers, in order, whether a NUL only separates the texts or also ends the
/// last of them.
pub proof fn law_listing_round_trip(
    pieces: Seq<Seq<char>>,
    terminated: bool,
    result: Result<Seq<i32>, Seq<char>>,
)
    requires
        forall|i: int| 0 <= i < pieces.len() ==> number_of(#[trigger] pieces[i]) is Some,
    ensures
        ({
            let text = join_nul(pieces) + (if terminated && pieces.len() > 0 {
                seq!['\0']
            } else {
                seq![]
            });
            listing_is(split_nul(text), result) <==> result == Ok::<Seq<i32>, Seq<char>>(
                pieces.map_values(|piece: Seq<char>| number_of(piece)->0),
            )
        }),
{
    let none = Seq::<char>::empty();
    let ended = terminated && pieces.len() > 0;
    let text = join_nul(pieces) + (if ended {
        seq!['\0']
    } else {
        seq![]
    });
    let all = if ended || pieces.len() == 0 {
        pieces.push(none)
    } else {
        pieces
    };
    assert forall|i: int| 0 <= i < pieces.len() implies (#[trigger] pieces[i]).len() > 0
        && !has_nul(pieces[i]) by {
        lemma_number_has_no_nul(pieces[i]);
    }
    assert(pieces.push(none).drop_last() =~= pieces);
    assert(text =~= join_nul(all));
    law_join_split(all);
    lemma_no_empty_pieces(pieces);
    reveal(Seq::filter);
    assert(all.filter(|piece: Seq<char>| piece.len() > 0) == pieces);
    assert(listed_numbers(all) == pieces.map_values(|piece: Seq<char>| number_of(piece)->0));
    assert forall|i: int| 0 <= i < all.len() implies !unreadable(#[trigger] all[i]) by {
        if i < pieces.len() {
            assert(number_of(pieces[i]) is Some);
        }
    }
}

/// Numbers are read back from the listing of their decimal texts, in order.
pub proof fn law_numbers_round_trip(
    numbers: Seq<i32>,
    terminated: bool,
    result: Result<Seq<i32>, Seq<char>>,
)
    ensures
        ({
            let text = join_nul(numbers.map_values(|number: i32| decimal_text(number))) + (
            if terminated && numbers.len() > 0 {
                seq!['\0']
            } else {
                seq![]
            });
            listing_is(split_nul(text), result) <==> result == Ok::<Seq<i32>, Seq<char>>(numbers)
        }),
{
    let pieces = numbers.map_values(|number: i32| decimal_text(number));
    assert forall|i: int| 0 <= i < pieces.len() implies number_of(#[trigger] pieces[i]) == Some(
        numbers[i],
    ) by {
        law_number_round_trip(numbers[i]);
    }
    law_listing_round_trip(pieces, terminated, result);
    assert(pieces.map_values(|piece: Seq<char>| number_of(piece)->0) =~= numbers);
}

/// Text is added to a payload whole, followed by a NUL where it is to be terminated.
/// Text with a NUL in it is refused, no other text is, and refused text leaves the
/// payload as it was.
pub proof fn law_text_is_added_whole(
    payload: &mut Vec<u8>,
    text: &str,
    terminated: bool,
    result: Result<(), XsError>,
)
    requires
        call_ensures(push_text, (payload, text, terminated), result),
    ensures
        result is Err <==> exists|i: int| 0 <= i < text@.len() && #[trigger] text@[i] == '\0',
        result matches Err(error) ==> error is NulByte && final(payload)@ == old(payload)@,
        result is Ok && terminated ==> final(payload)@ == old(payload)@ + encode_utf8(
            text@.push('\0'),
        ),
        result is Ok && !terminated ==> final(payload)@ == old(payload)@ + encode_utf8(text@),
{
    lemma_encode_nul();
    lemma_encode_concat(text@, seq!['\0']);
    assert(text@ + seq!['\0'] =~= text@.push('\0'));
    if result is Ok {
        assert(forall|i: int| 0 <= i < text@.len() ==> #[trigger] text@[i] != '\0');
        assert(old(payload)@ + encode_utf8(text@) + seq![0u8] =~= old(payload)@ + (encode_utf8(
            text@,
        ) + seq![0u8]));
        assert(old(payload)@ + encode_utf8(text@) + seq![] =~= old(payload)@ + encode_utf8(text@));
    }
}

/// Joining puts a NUL before each piece but the first.
pub proof fn law_join_adds_a_piece(pieces: Seq<Seq<char>>, piece: Seq<char>)
    ensures
        join_nul(seq![piece]) == piece,
        pieces.len() > 0 ==> join_nul(pieces.push(piece)) == join_nul(pieces).push('\0') + piece,
{
    assert(pieces.push(piece).drop_last() =~= pieces);
}

/// The pieces of a text are what stands between its NULs: none has a NUL in it, and
/// the text is all of them, in order, with a NUL between each and the next.
pub proof fn law_pieces_make_up_the_text(text: &str, pieces: Vec<&str>)
    requires
        call_ensures(split, (text,), pieces),
    ensures
        pieces@.len() > 0,
        join_nul(pieces@.map_values(|piece: &str| piece@)) == text@,
        forall|i: int, k: int|
            0 <= i < pieces@.len() && 0 <= k < pieces@[i]@.len() ==> #[trigger] pieces@[i]@[k]
                != '\0',
{
    law_split_join(text@);
    let all = split_nul(text@);
    assert(all =~= pieces@.map_values(|piece: &str| piece@));
    assert forall|i: int, k: int|
        0 <= i < pieces@.len() && 0 <= k < pieces@[i]@.len() implies #[trigger] pieces@[i]@[k]
        != '\0' by {
        assert(all[i] == pieces@[i]@);
        assert(!has_nul(all[i]));
    }
}

/// The shortest numbers: one digit, with a sign before it or none. Nothing is no
/// number, and neither is a sign alone or any other character.
pub proof fn law_shortest_numbers(text: &str, number: Option<i32>)
    requires
        call_ensures(parse_i32, (text,), number),
    ensures
        text@.len() == 0 ==> number is None,
        text@.len() == 1 ==> number == if '0' <= text@[0] <= '9' {
            Some((text@[0] as int - '0' as int) as i32)
        } else {
            None
        },
        text@.len() == 2 && text@[0] == '+' ==> number == if '0' <= text@[1] <= '9' {
            Some((text@[1] as int - '0' as int) as i32)
        } else {
            None
        },
        text@.len() == 2 && text@[0] == '-' ==> number == if '0' <= text@[1] <= '9' {
            Some(('0' as int - text@[1] as int) as i32)
        } else {
            None
        },
{
    let digits = unsigned_part(text@);
    if digits.len() == 1 {
        assert(digits.drop_last() =~= seq![]);
        assert(decimal(digits.drop_last()) == 0);
        assert(is_digit(digits[0]) ==> forall|i: int|
            0 <= i < digits.len() ==> is_digit(#[trigger] digits[i]));
    }
}

/// A longer number: one more digit makes a number ten times as large and adds the
/// digit to it, away from zero, as long as it stays in range. Any other character
/// makes it no number, and what is more than a sign and no number does not become
/// one.
pub proof fn law_one_more_digit(
    text: &str,
    number: Option<i32>,
    longer: &str,
    then: Option<i32>,
    c: char,
)
    requires
        call_ensures(parse_i32, (text,), number),
        call_ensures(parse_i32, (longer,), then),
        longer@ == text@.push(c),
    ensures
        number is Some && '0' <= c <= '9' ==> ({
            let digit = c as int - '0' as int;
            let value = if text@[0] == '-' {
                10 * number->0 - digit
            } else {
                10 * number->0 + digit
            };
            then == if -0x8000_0000 <= value <= 0x7fff_ffff {
                Some(value as i32)
            } else {
                None
            }
        }),
        !('0' <= c <= '9') ==> then is None,
        number is None && text@.len() > 1 ==> then is None,
        number is None && text@.len() == 1 && text@[0] != '+' && text@[0] != '-' ==> then is None,
{
    let digits = unsigned_part(text@);
    let more = unsigned_part(longer@);
    if text@.len() > 0 {
        assert(more =~= digits.push(c));
        assert(more.drop_last() =~= digits);
        assert(more[digits.len() as int] == c);
        assert forall|i: int| 0 <= i < digits.len() implies digits[i] == #[trigger] more[i] by {}
        assert(decimal(more) == 10 * decimal(digits) + (c as nat - '0' as nat) as nat);
        if then is Some {
            assert forall|i: int| 0 <= i < digits.len() implies is_digit(#[trigger] digits[i]) by {
                assert(is_digit(more[i]));
            }
        }
        if number is Some && is_digit(c) {
            assert forall|i: int| 0 <= i < more.len() implies is_digit(#[trigger] more[i]) by {
                if i < digits.len() {
                    assert(is_digit(digits[i]));
                }
            }
        }
    } else {
        assert(longer@[0] == c);
    }
}

/// A listing of one string: nothing if it is empty, its number if it is one, and
/// otherwise the string, which cannot be read.
pub proof fn law_listing_of_one(
    text: &str,
    number: Option<i32>,
    result: Result<Vec<i32>, String>,
)
    requires
        forall|k: int| 0 <= k < text@.len() ==> #[trigger] text@[k] != '\0',
        call_ensures(parse_i32, (text,), number),
        call_ensures(parse_listing, (text,), result),
    ensures
        text@.len() == 0 ==> (result matches Ok(numbers) && numbers@ == Seq::<i32>::empty()),
        text@.len() > 0 && number is Some ==> (result matches Ok(numbers) && numbers@
            == seq![number->0]),
        text@.len() > 0 && number is None ==> (result matches Err(name) && name@ == text@),
{
    let pieces = seq![text@];
    law_join_split(pieces);
    assert(split_nul(text@) == pieces);
    assert(pieces[0] == text@);
    lemma_listed_push(Seq::empty(), text@);
    assert(Seq::<Seq<char>>::empty().push(text@) =~= pieces);
    assert(listed_numbers(Seq::empty()) =~= Seq::<i32>::empty()) by {
        reveal(Seq::filter);
    }
}

/// A listing with one string more. Its number comes after those before it, nothing
/// comes if the string is empty, and a string that is no number is what the reading
/// ends with, unless it ended with one before.
pub proof fn law_listing_of_one_more(
    text: &str,
    result: Result<Vec<i32>, String>,
    piece: &str,
    number: Option<i32>,
    longer: &str,
    then: Result<Vec<i32>, String>,
)
    requires
        forall|k: int| 0 <= k < piece@.len() ==> #[trigger] piece@[k] != '\0',
        longer@ == text@.push('\0') + piece@,
        call_ensures(parse_listing, (text,), result),
        call_ensures(parse_i32, (piece,), number),
        call_ensures(parse_listing, (longer,), then),
    ensures
        result matches Err(name) ==> (then matches Err(other) && other@ == name@),
        result matches Ok(numbers) ==> {
            &&& piece@.len() == 0 ==> (then matches Ok(all) && all@ == numbers@)
            &&& piece@.len() > 0 && number is Some ==> (then matches Ok(all) && all@
                == numbers@.push(number->0))
            &&& piece@.len() > 0 && number is None ==> (then matches Err(name) && name@ == piece@)
        },
{
    let pieces = split_nul(text@);
    let more = pieces.push(piece@);
    law_split_join(text@);
    law_join_adds_a_piece(pieces, piece@);
    assert forall|i: int| 0 <= i < more.len() implies !has_nul(#[trigger] more[i]) by {
        if i < pieces.len() {
            assert(!has_nul(pieces[i]));
        }
    }
    law_join_split(more);
    assert(split_nul(longer@) == more);
    assert(more[pieces.len() as int] == piece@);
    assert forall|i: int| 0 <= i < pieces.len() implies #[trigger] pieces[i] == more[i] by {}
    lemma_listed_push(pieces, piece@);
    match result {
        Err(name) => {
            let i = choose|i: int|
                0 <= i < pieces.len() && unreadable(#[trigger] pieces[i]) && name@ == pieces[i]
                    && forall|j: int| 0 <= j < i ==> !unreadable(#[trigger] pieces[j]);
            assert(unreadable(more[i]));
            assert forall|j: int| 0 <= j < i implies !unreadable(#[trigger] more[j]) by {
                assert(!unreadable(pieces[j]));
            }
            lemma_listing_is_unique(
                more,
                Err(name@),
                match then {
                    Ok(numbers) => Ok(numbers@),
                    Err(piece) => Err(piece@),
                },
            );
        },
        Ok(numbers) => {
            assert forall|i: int| 0 <= i < pieces.len() implies !unreadable(#[trigger] more[i]) by {
                assert(!unreadable(pieces[i]));
            }
        },
    }
}

/// One more piece of a listing adds its number, if it is not empty.
proof fn lemma_listed_push(pieces: Seq<Seq<char>>, piece: Seq<char>)
    ensures
        listed_numbers(pieces.push(piece)) == if piece.len() > 0 {
            listed_numbers(pieces).push(number_of(piece)->0)
        } else {
            listed_numbers(pieces)
        },
{
    reveal(Seq::filter);
    assert(pieces.push(piece).drop_last() =~= pieces);
    assert(listed_numbers(pieces.push(piece)) =~= if piece.len() > 0 {
        listed_numbers(pieces).push(number_of(piece)->0)
    } else {
        listed_numbers(pieces)
    });
}

/// Reading a listing can come to one result only.
pub(crate) proof fn lemma_listing_is_unique(
    pieces: Seq<Seq<char>>,
    result: Result<Seq<i32>, Seq<char>>,
    other: Result<Seq<i32>, Seq<char>>,
)
    requires
        listing_is(pieces, result),
        listing_is(pieces, other),
    ensures
        result == other,
{
    if result is Err && other is Err {
        let i = choose|i: int|
            0 <= i < pieces.len() && unreadable(#[trigger] pieces[i]) && result->Err_0 == pieces[i]
                && forall|j: int| 0 <= j < i ==> !unreadable(#[trigger] pieces[j]);
        let k = choose|k: int|
            0 <= k < pieces.len() && unreadable(#[trigger] pieces[k]) && other->Err_0 == pieces[k]
                && forall|j: int| 0 <= j < k ==> !unreadable(#[trigger] pieces[j]);
        assert(i == k);
    }
}

} // verus!
