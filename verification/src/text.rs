//! Building blocks for the text that goes over the wire: decimal notation of
//! numbers and comma-separated lists.

use vstd::prelude::*;

verus! {

/// The character that stands for one decimal digit.
pub open spec fn digit_char(d: nat) -> char
    recommends
        d < 10,
{
    if d == 0 {
        '0'
    } else if d == 1 {
        '1'
    } else if d == 2 {
        '2'
    } else if d == 3 {
        '3'
    } else if d == 4 {
        '4'
    } else if d == 5 {
        '5'
    } else if d == 6 {
        '6'
    } else if d == 7 {
        '7'
    } else if d == 8 {
        '8'
    } else {
        '9'
    }
}

/// Decimal notation of `n`: most significant digit first, no leading zeros,
/// and the single digit `0` for zero.
pub open spec fn decimal(n: nat) -> Seq<char>
    decreases n,
{
    if n < 10 {
        seq![digit_char(n)]
    } else {
        decimal(n / 10).push(digit_char(n % 10))
    }
}

/// The one-character string of a decimal digit.
fn digit_str(d: u8) -> (s: &'static str)
    requires
        d < 10,
    ensures
        s@ == seq![digit_char(d as nat)],
{
    proof {
        reveal_strlit("0");
        reveal_strlit("1");
        reveal_strlit("2");
        reveal_strlit("3");
        reveal_strlit("4");
        reveal_strlit("5");
        reveal_strlit("6");
        reveal_strlit("7");
        reveal_strlit("8");
        reveal_strlit("9");
    }
    let s = match d {
        0 => "0",
        1 => "1",
        2 => "2",
        3 => "3",
        4 => "4",
        5 => "5",
        6 => "6",
        7 => "7",
        8 => "8",
        _ => "9",
    };
    assert(s@ =~= seq![digit_char(d as nat)]);
    s
}

/// Appends the decimal notation of `n` to `out`.
pub fn push_decimal(out: &mut String, n: u128)
    ensures
        final(out)@ == old(out)@ + decimal(n as nat),
    decreases n,
{
    if n >= 10 {
        push_decimal(out, n / 10);
    }
    let d: u8 = (n % 10) as u8;
    out.append(digit_str(d));
    assert(out@ =~= old(out)@ + decimal(n as nat));
}

/// The decimal notation of `n` as a string of its own.
pub fn decimal_string(n: u128) -> (s: String)
    ensures
        s@ == decimal(n as nat),
{
    let mut s = String::new();
    push_decimal(&mut s, n);
    assert(s@ =~= decimal(n as nat));
    s
}

/// The digit that a character stands for.
pub open spec fn digit_value(c: char) -> nat {
    if c == '1' {
        1
    } else if c == '2' {
        2
    } else if c == '3' {
        3
    } else if c == '4' {
        4
    } else if c == '5' {
        5
    } else if c == '6' {
        6
    } else if c == '7' {
        7
    } else if c == '8' {
        8
    } else if c == '9' {
        9
    } else {
        0
    }
}

/// The number that a sequence of digits denotes.
pub open spec fn decimal_value(digits: Seq<char>) -> nat
    decreases digits.len(),
{
    if digits.len() == 0 {
        0
    } else {
        decimal_value(digits.drop_last()) * 10 + digit_value(digits.last())
    }
}

/// A decimal notation is made of digits, has no leading zero but for the
/// number 0 itself, and denotes the number it was made of.
pub proof fn lemma_decimal_denotes(n: nat)
    ensures
        decimal(n).len() >= 1,
        forall|i: int| 0 <= i < decimal(n).len() ==> '0' <= #[trigger] decimal(n)[i] <= '9',
        n > 0 ==> decimal(n)[0] != '0',
        decimal_value(decimal(n)) == n,
    decreases n,
{
    if n >= 10 {
        lemma_decimal_denotes(n / 10);
        let front = decimal(n / 10);
        assert(decimal(n).drop_last() =~= front);
        assert(decimal(n)[0] == front[0]);
    } else {
        assert(decimal(n).drop_last() =~= Seq::<char>::empty());
        assert(decimal_value(Seq::<char>::empty()) == 0);
    }
}

/// The character that stands for one hexadecimal digit.
pub open spec fn hex_char(d: nat) -> char
    recommends
        d < 16,
{
    if d < 10 {
        digit_char(d)
    } else if d == 10 {
        'a'
    } else if d == 11 {
        'b'
    } else if d == 12 {
        'c'
    } else if d == 13 {
        'd'
    } else if d == 14 {
        'e'
    } else {
        'f'
    }
}

/// A character as it stands inside a JSON string: a quote and a backslash
/// behind a backslash, a control character as `\u00` and its two
/// hexadecimal digits, every other character as itself.
pub open spec fn escaped_char(c: char) -> Seq<char> {
    if c == '"' {
        seq!['\\', '"']
    } else if c == '\\' {
        seq!['\\', '\\']
    } else if (c as u32) < 0x20 {
        seq!['\\', 'u', '0', '0'] + seq![
            hex_char((c as u32 / 16) as nat),
            hex_char((c as u32 % 16) as nat),
        ]
    } else {
        seq![c]
    }
}

/// A text as it stands inside a JSON string, between the quotes.
pub open spec fn escaped(text: Seq<char>) -> Seq<char>
    decreases text.len(),
{
    if text.len() == 0 {
        Seq::empty()
    } else {
        escaped(text.drop_last()) + escaped_char(text.last())
    }
}

/// The one-character string of a hexadecimal digit.
fn hex_str(d: u32) -> (s: &'static str)
    requires
        d < 16,
    ensures
        s@ == seq![hex_char(d as nat)],
{
    if d < 10 {
        digit_str(d as u8)
    } else {
        proof {
            reveal_strlit("a");
            reveal_strlit("b");
            reveal_strlit("c");
            reveal_strlit("d");
            reveal_strlit("e");
            reveal_strlit("f");
        }
        let s = match d {
            10 => "a",
            11 => "b",
            12 => "c",
            13 => "d",
            14 => "e",
            _ => "f",
        };
        assert(s@ =~= seq![hex_char(d as nat)]);
        s
    }
}

/// Appends `text` to `out` as it stands inside a JSON string.
pub fn push_escaped(out: &mut String, text: &str)
    ensures
        final(out)@ == old(out)@ + escaped(text@),
{
    proof {
        reveal_strlit("\\\"");
        reveal_strlit("\\\\");
        reveal_strlit("\\u00");
    }
    let ghost start = out@;
    let total = text.unicode_len();
    let mut i: usize = 0;
    assert(text@.take(0) =~= Seq::<char>::empty());
    assert(out@ =~= start + escaped(text@.take(0)));
    while i < total
        invariant
            total == text@.len(),
            i <= total,
            out@ == start + escaped(text@.take(i as int)),
            "\\\""@ == seq!['\\', '"'],
            "\\\\"@ == seq!['\\', '\\'],
            "\\u00"@ == seq!['\\', 'u', '0', '0'],
        decreases total - i,
    {
        let ghost before = out@;
        let c = text.get_char(i);
        let code = c as u32;
        if c == '"' {
            out.append("\\\"");
        } else if c == '\\' {
            out.append("\\\\");
        } else if code < 0x20 {
            out.append("\\u00");
            out.append(hex_str(code / 16));
            out.append(hex_str(code % 16));
        } else {
            let one = text.substring_char(i, i + 1);
            assert(one@ =~= seq![c]);
            out.append(one);
        }
        proof {
            assert(text@.take(i + 1).drop_last() =~= text@.take(i as int));
            assert(text@.take(i + 1).last() == c);
            assert(out@ =~= before + escaped_char(c));
            assert(out@ =~= start + escaped(text@.take(i + 1)));
        }
        i = i + 1;
    }
    assert(text@.take(total as int) =~= text@);
}

/// Inside a JSON string a text holds no control character, and no quote
/// but behind a backslash.
pub proof fn lemma_escaped_is_safe(text: Seq<char>)
    ensures
        forall|k: int|
            0 <= k < escaped(text).len() ==> (#[trigger] escaped(text)[k]) as u32 >= 0x20,
        forall|k: int|
            0 <= k < escaped(text).len() && #[trigger] escaped(text)[k] == '"' ==> k > 0 && escaped(
                text,
            )[k - 1] == '\\',
    decreases text.len(),
{
    if text.len() > 0 {
        let front = escaped(text.drop_last());
        let c = text.last();
        let piece = escaped_char(c);
        lemma_escaped_is_safe(text.drop_last());
        let all = escaped(text);
        assert(all == front + piece);
        assert forall|k: int| 0 <= k < all.len() implies (#[trigger] all[k]) as u32 >= 0x20 by {
            if k >= front.len() {
                assert(all[k] == piece[k - front.len()]);
            } else {
                assert(all[k] == front[k]);
            }
        }
        assert forall|k: int| 0 <= k < all.len() && #[trigger] all[k] == '"' implies k > 0 && all[k
            - 1] == '\\' by {
            if k >= front.len() {
                assert(all[k] == piece[k - front.len()]);
                assert(piece[0] != '"');
                if k - front.len() == 1 {
                    assert(all[k - 1] == piece[0]);
                }
            } else {
                assert(all[k] == front[k]);
                assert(all[k - 1] == front[k - 1]);
            }
        }
    }
}

/// The items of `items` joined by `sep`, in order.
pub open spec fn joined(items: Seq<Seq<char>>, sep: Seq<char>) -> Seq<char>
    decreases items.len(),
{
    if items.len() == 0 {
        Seq::empty()
    } else if items.len() == 1 {
        items[0]
    } else {
        joined(items.drop_last(), sep) + sep + items.last()
    }
}

/// A bracketed, comma-separated list: `[a,b,c]`, and `[]` for no items.
pub open spec fn bracketed(items: Seq<Seq<char>>) -> Seq<char> {
    seq!['['] + joined(items, seq![',']) + seq![']']
}

/// The views of a vector of strings, item by item.
pub open spec fn views(items: Seq<String>) -> Seq<Seq<char>> {
    items.map_values(|s: String| s@)
}

/// Renders `items` as a bracketed, comma-separated list.
pub fn bracketed_list(items: &Vec<String>) -> (out: String)
    ensures
        out@ == bracketed(views(items@)),
{
    proof {
        reveal_strlit("[");
        reveal_strlit("]");
        reveal_strlit(",");
    }
    let mut out = String::from_str("[");
    let mut i: usize = 0;
    while i < items.len()
        invariant
            i <= items@.len(),
            out@ == seq!['['] + joined(views(items@).take(i as int), seq![',']),
            ","@ == seq![','],
        decreases items@.len() - i,
    {
        let ghost before = views(items@).take(i as int);
        let ghost after = views(items@).take(i + 1);
        assert(after.drop_last() =~= before);
        assert(after.last() == items@[i as int]@);
        if i > 0 {
            out.append(",");
        }
        out.append(items[i].as_str());
        assert(out@ =~= seq!['['] + joined(after, seq![',']));
        i = i + 1;
    }
    assert(views(items@).take(i as int) =~= views(items@));
    out.append("]");
    out
}

/// The decimal notations of `numbers`, item by item.
pub open spec fn decimals(numbers: Seq<u32>) -> Seq<Seq<char>> {
    numbers.map_values(|n: u32| decimal(n as nat))
}

/// Renders `numbers` as a bracketed, comma-separated list.
pub fn bracketed_numbers(numbers: &Vec<u32>) -> (out: String)
    ensures
        out@ == bracketed(decimals(numbers@)),
{
    let mut items: Vec<String> = Vec::new();
    let mut i: usize = 0;
    while i < numbers.len()
        invariant
            i <= numbers@.len(),
            views(items@) == decimals(numbers@.take(i as int)),
        decreases numbers@.len() - i,
    {
        let ghost before = items@;
        let item = decimal_string(numbers[i] as u128);
        assert(item@ == decimal(numbers@[i as int] as nat));
        items.push(item);
        assert(views(items@) =~= views(before).push(item@));
        assert(decimals(numbers@.take(i + 1)) =~= decimals(numbers@.take(i as int)).push(
            decimal(numbers@[i as int] as nat),
        ));
        i = i + 1;
    }
    assert(numbers@.take(i as int) =~= numbers@);
    bracketed_list(&items)
}

} // verus!
