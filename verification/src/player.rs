//! Player ids.
use crate::archive::MAX_TEXT_BYTES;
use crate::message::PlayerId;
use vstd::prelude::*;
use vstd::utf8::{encode_utf8, is_ascii_chars, is_ascii_chars_encode_utf8};

verus! {

/// The character of a decimal digit.
pub open spec fn digit(value: nat) -> char {
    (0x30 + value) as char
}

/// A number in decimal, without leading zeros.
pub open spec fn decimal(value: nat) -> Seq<char>
    decreases value,
{
    if value < 10 {
        seq![digit(value)]
    } else {
        decimal(value / 10).push(digit(value % 10))
    }
}

/// The number that a sequence of decimal digits makes up.
pub open spec fn decimal_value(text: Seq<char>) -> int
    decreases text.len(),
{
    if text.len() == 0 {
        0
    } else {
        decimal_value(text.drop_last()) * 10 + (text.last() as int - 0x30)
    }
}

/// Ten to the power of `exponent`.
spec fn power_of_ten(exponent: nat) -> nat
    decreases exponent,
{
    if exponent == 0 {
        1
    } else {
        10 * power_of_ten((exponent - 1) as nat)
    }
}

proof fn lemma_decimal_value(value: nat)
    ensures
        decimal_value(decimal(value)) == value,
    decreases value,
{
    if value < 10 {
        let text = decimal(value);
        assert(text.drop_last() =~= Seq::<char>::empty());
        assert(text.last() as int == 0x30 + value);
        assert(decimal_value(text.drop_last()) == 0);
    } else {
        lemma_decimal_value(value / 10);
        let text = decimal(value);
        assert(text.drop_last() =~= decimal(value / 10));
        assert(text.last() as int == 0x30 + value % 10);
    }
}

proof fn lemma_decimal_ascii(value: nat)
    ensures
        is_ascii_chars(decimal(value)),
    decreases value,
{
    if value >= 10 {
        lemma_decimal_ascii(value / 10);
    }
}

proof fn lemma_decimal_len(value: nat, digits: nat)
    requires
        value < power_of_ten(digits),
        digits > 0,
    ensures
        decimal(value).len() <= digits,
    decreases digits,
{
    if value >= 10 {
        if digits == 1 {
            reveal_with_fuel(power_of_ten, 2);
        } else {
            lemma_decimal_len(value / 10, (digits - 1) as nat);
        }
    }
}

/// Connections with different stable ids have players with different ids.
pub proof fn law_player_ids_distinct(left: nat, right: nat)
    requires
        decimal(left) == decimal(right),
    ensures
        left == right,
{
    lemma_decimal_value(left);
    lemma_decimal_value(right);
}

/// A player id has at most twenty digits and so always fits in an archive: a
/// message that holds it can be written.
pub proof fn law_player_id_fits(stable_id: usize)
    ensures
        decimal(stable_id as nat).len() <= 20,
        encode_utf8(decimal(stable_id as nat)).len() == decimal(stable_id as nat).len(),
        encode_utf8(decimal(stable_id as nat)).len() <= MAX_TEXT_BYTES,
{
    reveal_with_fuel(power_of_ten, 21);
    lemma_decimal_len(stable_id as nat, 20);
    lemma_decimal_ascii(stable_id as nat);
    is_ascii_chars_encode_utf8(decimal(stable_id as nat));
}

fn digit_text(value: usize) -> (text: &'static str)
    requires
        value < 10,
    ensures
        text@ == seq![digit(value as nat)],
{
    proof {
        reveal_strlit("0");
        reveal_strlit("1");
        reveal_strlit("2");
        reveal_strlit("3");
        reveal_strlit("4");
        reveal_strlit("5");
        reveal_strlit("6");
        reveal_strlit("7");
        reveal_strlit("8");
        reveal_strlit("9");
    }
    let text = match value {
        0 => "0",
        1 => "1",
        2 => "2",
        3 => "3",
        4 => "4",
        5 => "5",
        6 => "6",
        7 => "7",
        8 => "8",
        _ => "9",
    };
    assert(text@ =~= seq![digit(value as nat)]);
    text
}

/// The id of the player behind a connection: the stable id of the connection
/// in decimal.
pub fn player_id(stable_id: usize) -> (id: PlayerId)
    ensures
        id@ == decimal(stable_id as nat),
        id@.len() > 0,
        forall|i: int| 0 <= i < id@.len() ==> '0' <= #[trigger] id@[i] <= '9',
        id@.len() > 1 ==> id@[0] != '0',
        id@.last() as int == '0' as int + stable_id % 10,
        id@.len() == 1 <==> stable_id < 10,
        decimal_value(id@) == stable_id,
    decreases stable_id,
{
    proof {
        law_decimal_digits(stable_id as nat);
        lemma_decimal_value(stable_id as nat);
    }
    if stable_id < 10 {
        digit_text(stable_id).to_string()
    } else {
        let mut id = player_id(stable_id / 10);
        let ghost prefix = id@;
        id.append(digit_text(stable_id % 10));
        assert(id@ =~= prefix.push(digit(stable_id as nat % 10)));
        id
    }
}

/// A number in decimal: every character is one of the ten digits, the last one
/// that of the units; the characters before it are the tenth of the number in
/// decimal, and there are none exactly if the number is less than ten. No
/// number but zero begins with a zero.
pub proof fn law_decimal_digits(value: nat)
    ensures
        decimal(value).len() > 0,
        forall|i: int| 0 <= i < decimal(value).len() ==> '0' <= #[trigger] decimal(value)[i] <= '9',
        decimal(value).last() as int == '0' as int + value % 10,
        decimal(value).len() == 1 <==> value < 10,
        value >= 10 ==> decimal(value).drop_last() == decimal(value / 10),
        value > 0 ==> decimal(value)[0] != '0',
    decreases value,
{
    if value >= 10 {
        let front = decimal(value / 10);
        law_decimal_digits(value / 10);
        assert(decimal(value).drop_last() =~= front);
        assert forall|i: int| 0 <= i < decimal(value).len() implies '0' <= #[trigger] decimal(
            value,
        )[i] <= '9' by {
            if i < front.len() {
                assert(decimal(value)[i] == front[i]);
            }
        }
        assert(decimal(value)[0] == front[0]);
    }
}

/// The number that a text makes up grows tenfold with every digit that is
/// added to the text, and by that digit.
pub proof fn law_decimal_value(text: Seq<char>, next: char)
    ensures
        decimal_value(Seq::empty()) == 0,
        decimal_value(text.push(next)) == 10 * decimal_value(text) + (next as int - '0' as int),
{
    assert(text.push(next).drop_last() =~= text);
}

/// The id of a player is the stable id of the connection in decimal: it is made
/// up of digits alone, without leading zeros, and to divide the stable id by ten
/// takes the last digit, that of the units, off the player id.
pub proof fn law_player_id_is_decimal(
    stable_id: usize,
    id: PlayerId,
    tenth: PlayerId,
)
    requires
        call_ensures(player_id, (stable_id,), id),
        call_ensures(player_id, ((stable_id / 10) as usize,), tenth),
    ensures
        forall|i: int| 0 <= i < id@.len() ==> '0' <= #[trigger] id@[i] <= '9',
        id@.len() > 1 ==> id@[0] != '0',
        stable_id < 10 ==> id@.len() == 1,
        stable_id >= 10 ==> id@.drop_last() == tenth@,
        id@.last() as int == '0' as int + stable_id % 10,
{
    law_decimal_digits(stable_id as nat);
}

} // verus!
