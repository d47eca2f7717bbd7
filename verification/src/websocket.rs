//! What the web socket server sends to its clients: each frame of LED data as
//! a JSON array of numbers.
use vstd::prelude::*;

verus! {

/// A frame of LED data as the web clients receive it.
pub struct PixelData {
    pub data: Vec<u8>,
}

/// The topics a web client asks to subscribe to.
pub struct TopicsRequest {
    pub topics: Vec<String>,
}

/// The character of the decimal digit `d` (`d < 10`).
pub open spec fn digit_char(d: nat) -> char {
    (48 + d) as char
}

/// The decimal digits of `n`, most significant first, without leading zeros.
pub open spec fn decimal(n: nat) -> Seq<char>
    decreases n,
{
    if n < 10 {
        seq![digit_char(n)]
    } else {
        decimal(n / 10).push(digit_char(n % 10))
    }
}

/// Whether `c` is one of the characters `0` to `9`.
pub open spec fn is_digit(c: char) -> bool {
    48 <= c as int <= 57
}

/// The number that the digit characters `ds` spell in base ten, read from the
/// front, after the digits already read spelled `acc`.
pub open spec fn digits_value(ds: Seq<char>, acc: int) -> int
    decreases ds.len(),
{
    if ds.len() == 0 {
        acc
    } else {
        digits_value(ds.drop_first(), acc * 10 + (ds[0] as int - 48))
    }
}

/// Reads `text` as numbers in base ten separated by commas, front to back;
/// `acc` is the value of the digits read so far of the current number.
pub open spec fn read_numbers(text: Seq<char>, acc: int) -> Seq<int>
    decreases text.len(),
{
    if text.len() == 0 {
        seq![acc]
    } else if text[0] == ',' {
        seq![acc] + read_numbers(text.drop_first(), 0)
    } else {
        read_numbers(text.drop_first(), acc * 10 + (text[0] as int - 48))
    }
}

/// A digit appended at the back adds one place.
proof fn lemma_digits_value_push(ds: Seq<char>, c: char, acc: int)
    ensures
        digits_value(ds.push(c), acc) == digits_value(ds, acc) * 10 + (c as int - 48),
    decreases ds.len(),
{
    if ds.len() == 0 {
        assert(ds.push(c).drop_first() =~= Seq::<char>::empty());
        assert(digits_value(Seq::<char>::empty(), acc * 10 + (c as int - 48)) == acc * 10 + (c as int
            - 48));
        assert(digits_value(ds, acc) == acc);
    } else {
        assert(ds.push(c).drop_first() =~= ds.drop_first().push(c));
        assert(ds.push(c)[0] == ds[0]);
        lemma_digits_value_push(ds.drop_first(), c, acc * 10 + (ds[0] as int - 48));
    }
}

/// The decimal form of `n` is a nonempty string of digits that spells `n` in
/// base ten and starts with `0` only when it is `0` itself.
pub proof fn lemma_decimal(n: nat)
    ensures
        decimal(n).len() > 0,
        forall|i: int| 0 <= i < decimal(n).len() ==> is_digit(#[trigger] decimal(n)[i]),
        digits_value(decimal(n), 0) == n,
        decimal(n)[0] == '0' <==> n == 0,
        decimal(n)[0] == '0' ==> decimal(n).len() == 1,
    decreases n,
{
    if n < 10 {
        assert(decimal(n).drop_first() =~= Seq::<char>::empty());
        assert(digit_char(n) as int == 48 + n);
        assert(digits_value(Seq::<char>::empty(), n as int) == n);
    } else {
        lemma_decimal(n / 10);
        let d = decimal(n / 10);
        assert(digit_char(n % 10) as int == 48 + n % 10);
        lemma_digits_value_push(d, digit_char(n % 10), 0);
        assert(decimal(n) == d.push(digit_char(n % 10)));
        assert(decimal(n)[0] == d[0]);
    }
}

/// The decimal forms of `items`, separated by commas.
pub open spec fn comma_separated(items: Seq<u8>) -> Seq<char>
    decreases items.len(),
{
    if items.len() == 0 {
        Seq::<char>::empty()
    } else if items.len() == 1 {
        decimal(items[0] as nat)
    } else {
        comma_separated(items.drop_last()) + seq![','] + decimal(items.last() as nat)
    }
}

/// Reading over digits only accumulates them into the current number.
proof fn lemma_read_digits(ds: Seq<char>, rest: Seq<char>, acc: int)
    requires
        forall|i: int| 0 <= i < ds.len() ==> is_digit(#[trigger] ds[i]),
    ensures
        read_numbers(ds + rest, acc) == read_numbers(rest, digits_value(ds, acc)),
    decreases ds.len(),
{
    if ds.len() == 0 {
        assert(ds + rest =~= rest);
    } else {
        assert(is_digit(ds[0]));
        assert((ds + rest)[0] == ds[0]);
        assert((ds + rest).drop_first() =~= ds.drop_first() + rest);
        lemma_read_digits(ds.drop_first(), rest, acc * 10 + (ds[0] as int - 48));
    }
}

/// The bytes as mathematical integers.
pub open spec fn byte_values(items: Seq<u8>) -> Seq<int> {
    items.map_values(|b: u8| b as int)
}

/// Reading a byte's decimal form back gives the byte.
proof fn lemma_read_decimal(b: u8, rest: Seq<char>)
    ensures
        read_numbers(decimal(b as nat) + rest, 0) == read_numbers(rest, b as int),
{
    lemma_decimal(b as nat);
    lemma_read_digits(decimal(b as nat), rest, 0);
}

/// Reading the comma-separated decimal forms of `items` gives `items` back,
/// also when more numbers follow after a comma.
proof fn lemma_read_list(items: Seq<u8>, rest: Seq<char>)
    requires
        items.len() > 0,
    ensures
        read_numbers(comma_separated(items), 0) == byte_values(items),
        read_numbers(comma_separated(items) + seq![','] + rest, 0) == byte_values(items)
            + read_numbers(rest, 0),
    decreases items.len(),
{
    let comma = seq![','];
    if items.len() == 1 {
        let d = decimal(items[0] as nat);
        assert(comma_separated(items) == d);
        lemma_read_decimal(items[0], Seq::<char>::empty());
        assert(d + Seq::<char>::empty() =~= d);
        assert(read_numbers(Seq::<char>::empty(), items[0] as int) == seq![items[0] as int]);
        assert(byte_values(items) =~= seq![items[0] as int]);
        lemma_read_decimal(items[0], comma + rest);
        assert(d + comma + rest =~= d + (comma + rest));
        assert((comma + rest).drop_first() =~= rest);
    } else {
        let init = items.drop_last();
        let last = items.last();
        let d = decimal(last as nat);
        let a = comma_separated(init);
        assert(comma_separated(items) == a + comma + d);
        assert(byte_values(items) =~= byte_values(init) + seq![last as int]);
        // the whole list
        lemma_read_list(init, d);
        lemma_read_decimal(last, Seq::<char>::empty());
        assert(d + Seq::<char>::empty() =~= d);
        assert(read_numbers(Seq::<char>::empty(), last as int) == seq![last as int]);
        // the list followed by more numbers
        let rest2 = d + comma + rest;
        lemma_read_list(init, rest2);
        assert(a + comma + d + comma + rest =~= a + comma + rest2);
        lemma_read_decimal(last, comma + rest);
        assert(d + comma + rest =~= d + (comma + rest));
        assert((comma + rest).drop_first() =~= rest);
        assert(read_numbers(comma + rest, last as int) == seq![last as int] + read_numbers(rest, 0));
        assert(byte_values(init) + (seq![last as int] + read_numbers(rest, 0)) =~= byte_values(items)
            + read_numbers(rest, 0));
    }
}

/// `items` as a compact JSON array of numbers, such as `[0,12,255]`.
pub open spec fn json_number_array(items: Seq<u8>) -> Seq<char> {
    seq!['['] + comma_separated(items) + seq![']']
}

/// The comma-separated decimal forms of a nonempty list hold only digits and
/// commas, start and end with a digit, never hold two commas in a row, and
/// write a number with a leading zero only as the single digit `0`.
proof fn lemma_list_shape(items: Seq<u8>)
    requires
        items.len() > 0,
    ensures
        comma_separated(items).len() > 0,
        is_digit(comma_separated(items)[0]),
        is_digit(comma_separated(items).last()),
        forall|i: int|
            0 <= i < comma_separated(items).len() ==> is_digit(#[trigger] comma_separated(items)[i])
                || comma_separated(items)[i] == ',',
        forall|i: int|
            0 <= i < comma_separated(items).len() - 1 && #[trigger] comma_separated(items)[i] == ','
                ==> is_digit(comma_separated(items)[i + 1]),
        forall|i: int|
            0 <= i < comma_separated(items).len() - 1 && #[trigger] comma_separated(items)[i] == '0'
                && (i == 0 || comma_separated(items)[i - 1] == ',') ==> comma_separated(items)[i + 1]
                == ',',
    decreases items.len(),
{
    if items.len() == 1 {
        lemma_decimal(items[0] as nat);
    } else {
        let init = items.drop_last();
        let d = decimal(items.last() as nat);
        let a = comma_separated(init);
        let t = comma_separated(items);
        lemma_list_shape(init);
        lemma_decimal(items.last() as nat);
        assert(t == a + seq![','] + d);
        let n = a.len() as int;
        assert(t[n] == ',');
        assert forall|i: int| 0 <= i < t.len() implies is_digit(#[trigger] t[i]) || t[i] == ',' by {
            if i < n {
                assert(t[i] == a[i]);
            } else if i > n {
                assert(t[i] == d[i - n - 1]);
            }
        }
        assert forall|i: int| 0 <= i < t.len() - 1 && #[trigger] t[i] == ',' implies is_digit(
            t[i + 1],
        ) by {
            if i < n - 1 {
                assert(t[i] == a[i]);
                assert(t[i + 1] == a[i + 1]);
            } else if i == n - 1 {
                assert(t[i] == a.last());
            } else if i == n {
                assert(t[i + 1] == d[0]);
            } else {
                assert(t[i] == d[i - n - 1]);
                assert(is_digit(d[i - n - 1]));
            }
        }
        assert forall|i: int|
            0 <= i < t.len() - 1 && #[trigger] t[i] == '0' && (i == 0 || t[i - 1] == ',') implies t[i
            + 1] == ',' by {
            if i < n - 1 {
                assert(t[i] == a[i]);
                assert(t[i + 1] == a[i + 1]);
                if i > 0 {
                    assert(t[i - 1] == a[i - 1]);
                }
            } else if i == n - 1 {
            } else if i == n {
            } else {
                let j = i - n - 1;
                assert(t[i] == d[j]);
                if j > 0 {
                    assert(t[i - 1] == d[j - 1]);
                    assert(is_digit(d[j - 1]));
                } else {
                    assert(d.len() == 1);
                }
            }
        }
        assert(t.last() == d.last());
        assert(t[0] == a[0]);
    }
}

/// The message for a frame lists every byte of the frame, in order and in
/// canonical decimal: it is `[`, then numbers separated by single commas, then
/// `]`; it holds only digits and commas in between; no number has a leading
/// zero; and reading the numbers back gives exactly the bytes of the frame,
/// as many as there are bytes. An empty frame gives `[]`.
pub proof fn lemma_message_lists_every_byte(items: Seq<u8>, msg: Seq<char>)
    requires
        msg == json_number_array(items),
    ensures
        msg.len() >= 2,
        msg[0] == '[',
        msg.last() == ']',
        items.len() == 0 ==> msg.len() == 2,
        items.len() > 0 ==> read_numbers(msg.subrange(1, msg.len() - 1), 0) == byte_values(items),
        items.len() > 0 ==> is_digit(msg[1]) && is_digit(msg[msg.len() - 2]),
        forall|i: int| 1 <= i < msg.len() - 1 ==> is_digit(#[trigger] msg[i]) || msg[i] == ',',
        forall|i: int| 1 <= i < msg.len() - 1 && #[trigger] msg[i] == ',' ==> is_digit(msg[i + 1]),
        forall|i: int|
            1 <= i < msg.len() - 1 && #[trigger] msg[i] == '0' && (msg[i - 1] == '[' || msg[i - 1]
                == ',') ==> (msg[i + 1] == ']' || msg[i + 1] == ','),
{
    let t = comma_separated(items);
    assert(msg.subrange(1, msg.len() - 1) =~= t);
    if items.len() == 0 {
        assert(t.len() == 0);
    } else {
        lemma_list_shape(items);
        lemma_read_list(items, Seq::<char>::empty());
        assert forall|i: int| 1 <= i < msg.len() - 1 implies is_digit(#[trigger] msg[i]) || msg[i]
            == ',' by {
            assert(msg[i] == t[i - 1]);
        }
        assert forall|i: int| 1 <= i < msg.len() - 1 && #[trigger] msg[i] == ',' implies is_digit(
            msg[i + 1],
        ) by {
            assert(msg[i] == t[i - 1]);
            assert(msg[i + 1] == t[i]);
        }
        assert forall|i: int|
            1 <= i < msg.len() - 1 && #[trigger] msg[i] == '0' && (msg[i - 1] == '[' || msg[i - 1]
                == ',') implies (msg[i + 1] == ']' || msg[i + 1] == ',') by {
            assert(msg[i] == t[i - 1]);
            if i < msg.len() - 2 {
                assert(msg[i + 1] == t[i]);
                if i > 1 {
                    assert(msg[i - 1] == t[i - 2]);
                }
            }
        }
    }
}

#[verifier::external_type_specification]
#[verifier::external_body]
pub struct ExJsonError(serde_json::Error);

/// serde_json's `to_string` on a `Vec<u8>`. As serde_json's source shows, a
/// vector is written as a sequence with the compact formatter: `[`, the
/// elements in decimal (itoa) separated by `,`, then `]`; writing into a
/// `Vec<u8>` cannot fail, so the result is always `Ok`.
#[verifier::external_body]
fn json_to_string(data: &Vec<u8>) -> (res: Result<String, serde_json::Error>)
    ensures
        res is Ok,
        res matches Ok(text) ==> text@ == json_number_array(data@),
{
    serde_json::to_string(data)
}

/// The text message that carries one frame of LED data to a web client:
/// the bytes as a JSON array of numbers.
pub fn led_message(led_data: &Vec<u8>) -> (msg: String)
    ensures
        msg@ == json_number_array(led_data@),
        msg@.len() >= 2,
        msg@[0] == '[',
        msg@.last() == ']',
        led_data@.len() == 0 ==> msg@.len() == 2,
        led_data@.len() > 0 ==> read_numbers(msg@.subrange(1, msg@.len() - 1), 0) == byte_values(
            led_data@,
        ),
        led_data@.len() > 0 ==> is_digit(msg@[1]) && is_digit(msg@[msg@.len() - 2]),
        forall|i: int| 1 <= i < msg@.len() - 1 ==> is_digit(#[trigger] msg@[i]) || msg@[i] == ',',
        forall|i: int| 1 <= i < msg@.len() - 1 && #[trigger] msg@[i] == ',' ==> is_digit(msg@[i + 1]),
        forall|i: int|
            1 <= i < msg@.len() - 1 && #[trigger] msg@[i] == '0' && (msg@[i - 1] == '[' || msg@[i
                - 1] == ',') ==> (msg@[i + 1] == ']' || msg@[i + 1] == ','),
{
    proof {
        lemma_message_lists_every_byte(led_data@, json_number_array(led_data@));
    }
    match json_to_string(led_data) {
        Ok(text) => text,
        Err(_) => {
            proof {
                assert(false);
            }
            String::new()
        },
    }
}

} // verus!
