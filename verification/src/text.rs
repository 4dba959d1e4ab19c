//! Text as it is printed: decimal numbers and lists of them.

use vstd::prelude::*;

verus! {

/// The character of a decimal digit.
pub open spec fn digit(d: nat) -> char {
    if d == 0 {
        '0'
    } else if d == 1 {
        '1'
    } else if d == 2 {
        '2'
    } else if d == 3 {
        '3'
    } else if d == 4 {
        '4'
    } else if d == 5 {
        '5'
    } else if d == 6 {
        '6'
    } else if d == 7 {
        '7'
    } else if d == 8 {
        '8'
    } else {
        '9'
    }
}

/// The character of a hexadecimal digit, in lower case.
pub open spec fn hex_digit(d: nat) -> char {
    if d < 10 {
        digit(d)
    } else if d == 10 {
        'a'
    } else if d == 11 {
        'b'
    } else if d == 12 {
        'c'
    } else if d == 13 {
        'd'
    } else if d == 14 {
        'e'
    } else {
        'f'
    }
}

/// A number in decimal digits, without leading zeros.
pub open spec fn decimal(n: nat) -> Seq<char>
    decreases n,
{
    if n < 10 {
        seq![digit(n)]
    } else {
        decimal(n / 10).push(digit(n % 10))
    }
}

fn push_digit(out: &mut String, d: u64)
    requires
        d < 10,
    ensures
        final(out)@ == old(out)@.push(digit(d as nat)),
{
    proof {
        reveal_strlit("0");
        reveal_strlit("1");
        reveal_strlit("2");
        reveal_strlit("3");
        reveal_strlit("4");
        reveal_strlit("5");
        reveal_strlit("6");
        reveal_strlit("7");
        reveal_strlit("8");
        reveal_strlit("9");
    }
    let piece: &str = match d {
        0 => "0",
        1 => "1",
        2 => "2",
        3 => "3",
        4 => "4",
        5 => "5",
        6 => "6",
        7 => "7",
        8 => "8",
        _ => "9",
    };
    out.append(piece);
    assert(piece@ =~= seq![digit(d as nat)]);
    assert(out@ =~= old(out)@.push(digit(d as nat)));
}

/// Appends a number in decimal.
pub fn push_number(out: &mut String, n: u64)
    ensures
        final(out)@ == old(out)@ + decimal(n as nat),
    decreases n,
{
    let ghost start = out@;
    if n >= 10 {
        push_number(out, n / 10);
    }
    push_digit(out, n % 10);
    assert(out@ =~= start + decimal(n as nat));
}

/// Numbers in decimal, separated by a comma and a space.
pub open spec fn comma_list(values: Seq<nat>) -> Seq<char>
    decreases values.len(),
{
    if values.len() == 0 {
        Seq::empty()
    } else if values.len() == 1 {
        decimal(values[0])
    } else {
        comma_list(values.drop_last()) + seq![',', ' '] + decimal(values.last())
    }
}

/// A bracketed list of numbers.
pub open spec fn bracketed(values: Seq<nat>) -> Seq<char> {
    seq!['['] + comma_list(values) + seq![']']
}

/// The numbers of a list of labels.
pub open spec fn label_numbers(labels: Seq<u32>) -> Seq<nat> {
    Seq::new(labels.len(), |i: int| labels[i] as nat)
}

/// The numbers of a list of node indices.
pub open spec fn index_numbers(nodes: Seq<usize>) -> Seq<nat> {
    Seq::new(nodes.len(), |i: int| nodes[i] as nat)
}

/// Appends a bracketed list of labels.
pub fn push_labels(out: &mut String, labels: &Vec<u32>)
    ensures
        final(out)@ == old(out)@ + bracketed(label_numbers(labels@)),
{
    let ghost start = out@;
    let ghost numbers = label_numbers(labels@);
    proof {
        reveal_strlit("[");
        reveal_strlit("]");
        reveal_strlit(", ");
    }
    out.append("[");
    let mut i: usize = 0;
    while i < labels.len()
        invariant
            i <= labels.len(),
            numbers == label_numbers(labels@),
            ", "@ == seq![',', ' '],
            out@ == start + seq!['['] + comma_list(numbers.take(i as int)),
        decreases labels.len() - i,
    {
        if i > 0 {
            out.append(", ");
        }
        push_number(out, labels[i] as u64);
        i += 1;
        assert(numbers.take(i as int).drop_last() =~= numbers.take(i - 1));
        assert(out@ =~= start + seq!['['] + comma_list(numbers.take(i as int)));
    }
    assert(numbers.take(i as int) =~= numbers);
    out.append("]");
    assert(out@ =~= start + bracketed(numbers));
}

/// Appends a bracketed list of node indices.
pub fn push_indices(out: &mut String, nodes: &Vec<usize>)
    ensures
        final(out)@ == old(out)@ + bracketed(index_numbers(nodes@)),
{
    let ghost start = out@;
    let ghost numbers = index_numbers(nodes@);
    proof {
        reveal_strlit("[");
        reveal_strlit("]");
        reveal_strlit(", ");
    }
    out.append("[");
    let mut i: usize = 0;
    while i < nodes.len()
        invariant
            i <= nodes.len(),
            numbers == index_numbers(nodes@),
            ", "@ == seq![',', ' '],
            out@ == start + seq!['['] + comma_list(numbers.take(i as int)),
        decreases nodes.len() - i,
    {
        if i > 0 {
            out.append(", ");
        }
        push_number(out, nodes[i] as u64);
        i += 1;
        assert(numbers.take(i as int).drop_last() =~= numbers.take(i - 1));
        assert(out@ =~= start + seq!['['] + comma_list(numbers.take(i as int)));
    }
    assert(numbers.take(i as int) =~= numbers);
    out.append("]");
    assert(out@ =~= start + bracketed(numbers));
}

/// An integer in decimal, behind a minus sign where it is negative.
pub open spec fn signed(n: int) -> Seq<char> {
    if n < 0 {
        seq!['-'] + decimal((-n) as nat)
    } else {
        decimal(n as nat)
    }
}

/// Appends an integer in decimal.
pub fn push_signed(out: &mut String, n: i64)
    requires
        n > i64::MIN,
    ensures
        final(out)@ == old(out)@ + signed(n as int),
{
    let ghost start = out@;
    if n < 0 {
        proof {
            reveal_strlit("-");
        }
        out.append("-");
        push_number(out, (-n) as u64);
        assert(out@ =~= start + signed(n as int));
    } else {
        push_number(out, n as u64);
    }
}

/// Whether a text comes before another, character by character.
pub open spec fn text_before(a: Seq<char>, b: Seq<char>) -> bool
    decreases a.len(),
{
    if b.len() == 0 {
        false
    } else if a.len() == 0 {
        true
    } else if a[0] != b[0] {
        a[0] < b[0]
    } else {
        text_before(a.skip(1), b.skip(1))
    }
}

/// Two texts that differ come one before the other.
pub proof fn texts_are_ordered(a: Seq<char>, b: Seq<char>)
    ensures
        !(text_before(a, b) && text_before(b, a)),
        a != b ==> text_before(a, b) || text_before(b, a),
        a == b ==> !text_before(a, b),
    decreases a.len(),
{
    if a.len() > 0 && b.len() > 0 && a[0] == b[0] {
        texts_are_ordered(a.skip(1), b.skip(1));
        if a.skip(1) == b.skip(1) {
            assert(a =~= seq![a[0]] + a.skip(1));
            assert(b =~= seq![b[0]] + b.skip(1));
        }
    } else if a.len() == 0 && b.len() == 0 {
        assert(a =~= b);
    }
}

/// The order of texts is transitive.
pub proof fn text_order_is_transitive(a: Seq<char>, b: Seq<char>, c: Seq<char>)
    requires
        text_before(a, b),
        text_before(b, c),
    ensures
        text_before(a, c),
    decreases a.len(),
{
    if a.len() > 0 && a[0] == b[0] && b[0] == c[0] {
        text_order_is_transitive(a.skip(1), b.skip(1), c.skip(1));
    }
}

/// Compares two texts, character by character.
pub fn is_before(a: &str, b: &str) -> (r: bool)
    ensures
        r == text_before(a@, b@),
{
    let n: usize = a.unicode_len();
    let m: usize = b.unicode_len();
    let mut i: usize = 0;
    assert(a@.skip(0) =~= a@);
    assert(b@.skip(0) =~= b@);
    while i < n && i < m
        invariant
            i <= n == a@.len(),
            i <= m == b@.len(),
            text_before(a@, b@) == text_before(a@.skip(i as int), b@.skip(i as int)),
        decreases n - i,
    {
        let x: char = a.get_char(i);
        let y: char = b.get_char(i);
        if x != y {
            return x < y;
        }
        assert(a@.skip(i as int).skip(1) =~= a@.skip(i + 1));
        assert(b@.skip(i as int).skip(1) =~= b@.skip(i + 1));
        i += 1;
    }
    i < m
}

/// The value of a decimal digit, or 10 where the character is none.
pub open spec fn digit_value(c: char) -> int {
    if '0' <= c && c <= '9' {
        c as int - '0' as int
    } else {
        10
    }
}

/// Whether a text is one or more decimal digits.
pub open spec fn all_digits(s: Seq<char>) -> bool {
    s.len() > 0 && forall|i: int| 0 <= i < s.len() ==> digit_value(#[trigger] s[i]) < 10
}

/// The number that a text of decimal digits writes.
pub open spec fn digits_value(s: Seq<char>) -> int
    decreases s.len(),
{
    if s.len() == 0 {
        0
    } else {
        10 * digits_value(s.drop_last()) + digit_value(s.last())
    }
}

/// The integer that a text writes: decimal digits behind an optional sign, in
/// the range of 32 bits.
pub open spec fn parse_integer(s: Seq<char>) -> Option<int> {
    let signed = s.len() > 0 && (s[0] == '-' || s[0] == '+');
    let body = if signed {
        s.skip(1)
    } else {
        s
    };
    let value = if signed && s[0] == '-' {
        -digits_value(body)
    } else {
        digits_value(body)
    };
    if all_digits(body) && i32::MIN <= value <= i32::MAX {
        Some(value)
    } else {
        None
    }
}

/// Reads the integer that a text writes.
pub fn read_integer(s: &str) -> (r: Option<i32>)
    ensures
        match r {
            Some(v) => parse_integer(s@) == Some(v as int),
            None => parse_integer(s@) is None,
        },
{
    let n: usize = s.unicode_len();
    if n == 0 {
        return None;
    }
    let first: char = s.get_char(0);
    let signed: bool = first == '-' || first == '+';
    let start: usize = if signed {
        1
    } else {
        0
    };
    let ghost body = s@.skip(start as int);
    assert(!signed ==> body =~= s@);
    if start == n {
        return None;
    }
    let mut value: i64 = 0;
    let mut big: bool = false;
    let mut i: usize = start;
    while i < n
        invariant
            start <= i <= n,
            n == s@.len(),
            n > 0,
            first == s@[0],
            signed == (first == '-' || first == '+'),
            start == (if signed {
                1int
            } else {
                0
            }),
            body == s@.skip(start as int),
            !signed ==> body == s@,
            forall|j: int| 0 <= j < i - start ==> digit_value(#[trigger] body[j]) < 10,
            !big ==> value == digits_value(body.take(i - start)) && 0 <= value <= 0x8000_0000,
            big ==> digits_value(body.take(i - start)) > 0x8000_0000,
        decreases n - i,
    {
        let c: char = s.get_char(i);
        assert(c == body[i - start]);
        assert(body.take(i - start + 1).drop_last() =~= body.take(i - start));
        if c < '0' || c > '9' {
            assert(digit_value(body[i - start]) == 10);
            assert(!all_digits(body));
            return None;
        }
        let d: i64 = (c as u32 - '0' as u32) as i64;
        if !big {
            let next: i64 = 10 * value + d;
            if next > 0x8000_0000 {
                big = true;
            } else {
                value = next;
            }
        }
        i += 1;
    }
    assert(body.take(n - start) =~= body);
    assert(all_digits(body));
    if big {
        return None;
    }
    if signed && first == '-' {
        Some((-value) as i32)
    } else if value <= i32::MAX as i64 {
        Some(value as i32)
    } else {
        None
    }
}

/// Texts with a separator between them.
pub open spec fn joined(parts: Seq<Seq<char>>, separator: Seq<char>) -> Seq<char>
    decreases parts.len(),
{
    if parts.len() == 0 {
        Seq::empty()
    } else if parts.len() == 1 {
        parts[0]
    } else {
        joined(parts.drop_last(), separator) + separator + parts.last()
    }
}

/// Texts that follow each other may be taken together in any way.
pub proof fn follow_on(a: Seq<char>, b: Seq<char>, c: Seq<char>)
    ensures
        a + (b + c) == a + b + c,
{
    assert(a + (b + c) =~= a + b + c);
}

/// One more text comes behind a separator.
pub proof fn joined_with_one_more(parts: Seq<Seq<char>>, part: Seq<char>, separator: Seq<char>)
    ensures
        parts.len() > 0 ==> joined(parts.push(part), separator) == joined(parts, separator)
            + separator + part,
        parts.len() == 0 ==> joined(parts.push(part), separator) == part,
{
    assert(parts.push(part).drop_last() =~= parts);
}

/// A number in decimal reads as that number, in digits, of which the first is
/// zero for zero alone.
pub proof fn decimals_read_back(n: nat)
    ensures
        all_digits(decimal(n)),
        digits_value(decimal(n)) == n,
        decimal(n)[0] == '0' ==> n == 0,
    decreases n,
{
    if n < 10 {
        assert(decimal(n).drop_last() =~= Seq::<char>::empty());
        assert(digits_value(decimal(n).drop_last()) == 0);
    } else {
        decimals_read_back(n / 10);
        let d = decimal(n);
        assert(d.drop_last() =~= decimal(n / 10));
        assert forall|i: int| 0 <= i < d.len() implies digit_value(#[trigger] d[i]) < 10 by {
            if i < d.len() - 1 {
                assert(d[i] == decimal(n / 10)[i]);
            }
        }
    }
}

/// An integer of 32 bits in decimal reads as that integer.
pub proof fn integers_read_back(n: int)
    requires
        i32::MIN <= n <= i32::MAX,
    ensures
        parse_integer(signed(n)) == Some(n),
{
    if n < 0 {
        decimals_read_back((-n) as nat);
        assert(signed(n).skip(1) =~= decimal((-n) as nat));
    } else {
        decimals_read_back(n as nat);
        assert(digit_value(decimal(n as nat)[0]) < 10);
    }
}

} // verus!
