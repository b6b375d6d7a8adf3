//! The text form of grid positions in project files, `"x,y,z"` in decimal, and decimal
//! numbers in names.

use vstd::prelude::*;

use crate::geometry::GridPosition;

verus! {

broadcast use vstd::string::group_string_axioms;

/// The character of a decimal digit.
pub open spec fn digit_char(d: nat) -> char {
    (48 + d) as char
}

/// The decimal digits of `n`, most significant first, without leading zeros.
pub open spec fn decimal(n: nat) -> Seq<char>
    decreases n,
{
    if n < 10 {
        seq![digit_char(n)]
    } else {
        decimal(n / 10).push(digit_char(n % 10))
    }
}

/// An integer in decimal, with a minus sign when negative.
pub open spec fn int_text(n: int) -> Seq<char> {
    if n < 0 {
        seq!['-'] + decimal((-n) as nat)
    } else {
        decimal(n as nat)
    }
}

/// The text of a position: its three coordinates in decimal, separated by commas.
pub open spec fn position_text_of(p: GridPosition) -> Seq<char> {
    int_text(p.x as int) + seq![','] + int_text(p.y as int) + seq![','] + int_text(p.z as int)
}

/// Whether a character is an ASCII decimal digit.
pub open spec fn is_digit(c: char) -> bool {
    '0' <= c <= '9'
}

/// At least one character, all of them decimal digits.
pub open spec fn all_digits(s: Seq<char>) -> bool {
    s.len() > 0 && forall|k: int| 0 <= k < s.len() ==> is_digit(#[trigger] s[k])
}

/// The number that a string of decimal digits denotes.
pub open spec fn digits_value(s: Seq<char>) -> nat
    decreases s.len(),
{
    if s.len() == 0 {
        0
    } else {
        digits_value(s.drop_last()) * 10 + (s.last() as nat - 48) as nat
    }
}

/// The `i32` that a text denotes the way `str::parse::<i32>` reads it: an optional `+` or
/// `-`, then one or more decimal digits, and a value in range; `None` for anything else.
pub open spec fn i32_of_text(s: Seq<char>) -> Option<i32> {
    if s.len() > 0 && s[0] == '-' {
        let d = s.drop_first();
        if all_digits(d) && digits_value(d) <= 0x8000_0000 {
            Some((-(digits_value(d) as int)) as i32)
        } else {
            None
        }
    } else {
        let d = if s.len() > 0 && s[0] == '+' {
            s.drop_first()
        } else {
            s
        };
        if all_digits(d) && digits_value(d) <= 0x7fff_ffff {
            Some(digits_value(d) as i32)
        } else {
            None
        }
    }
}

/// No character of the text is a comma.
pub open spec fn comma_free(s: Seq<char>) -> bool {
    forall|k: int| 0 <= k < s.len() ==> #[trigger] s[k] != ','
}

/// The text is three comma-free fields joined by the commas at `i` and `j`.
pub open spec fn three_fields(s: Seq<char>, i: int, j: int) -> bool {
    &&& 0 <= i < j < s.len()
    &&& s[i] == ','
    &&& s[j] == ','
    &&& comma_free(s.subrange(0, i))
    &&& comma_free(s.subrange(i + 1, j))
    &&& comma_free(s.subrange(j + 1, s.len() as int))
}

/// The position a text denotes: three fields separated by exactly two commas, each an `i32`
/// as `str::parse` reads it; `None` for anything else.
pub open spec fn position_of_text(s: Seq<char>) -> Option<GridPosition> {
    if exists|i: int, j: int| three_fields(s, i, j) {
        let (i, j) = choose|i: int, j: int| three_fields(s, i, j);
        match (
            i32_of_text(s.subrange(0, i)),
            i32_of_text(s.subrange(i + 1, j)),
            i32_of_text(s.subrange(j + 1, s.len() as int)),
        ) {
            (Some(x), Some(y), Some(z)) => Some(GridPosition { x, y, z }),
            _ => None,
        }
    } else {
        None
    }
}

fn digit_str(d: u64) -> (r: &'static str)
    requires
        d < 10,
    ensures
        r@ == seq![digit_char(d as nat)],
{
    proof {
        reveal_strlit("0");
        reveal_strlit("1");
        reveal_strlit("2");
        reveal_strlit("3");
        reveal_strlit("4");
        reveal_strlit("5");
        reveal_strlit("6");
        reveal_strlit("7");
        reveal_strlit("8");
        reveal_strlit("9");
    }
    match d {
        0 => "0",
        1 => "1",
        2 => "2",
        3 => "3",
        4 => "4",
        5 => "5",
        6 => "6",
        7 => "7",
        8 => "8",
        _ => "9",
    }
}

/// Appends the decimal digits of `n` to `s`.
pub fn push_decimal(s: &mut String, n: u64)
    ensures
        final(s)@ == old(s)@ + decimal(n as nat),
    decreases n,
{
    if n >= 10 {
        push_decimal(s, n / 10);
    }
    s.append(digit_str(n % 10));
    proof {
        if n >= 10 {
            assert(decimal(n as nat) == decimal((n / 10) as nat).push(digit_char((n % 10) as nat)));
        }
    }
}

/// Appends an integer in decimal to `s`.
fn push_int(s: &mut String, n: i32)
    ensures
        final(s)@ == old(s)@ + int_text(n as int),
{
    if n < 0 {
        proof {
            reveal_strlit("-");
        }
        s.append("-");
        let magnitude: u64 = (-(n as i64)) as u64;
        push_decimal(s, magnitude);
        proof {
            assert(final(s)@ =~= old(s)@ + int_text(n as int));
        }
    } else {
        push_decimal(s, n as u64);
    }
}

/// The text of a position in a project file.
pub fn position_text(p: GridPosition) -> (r: String)
    ensures
        r@ == position_text_of(p),
{
    let mut s = String::new();
    proof {
        reveal_strlit(",");
    }
    push_int(&mut s, p.x);
    s.append(",");
    push_int(&mut s, p.y);
    s.append(",");
    push_int(&mut s, p.z);
    proof {
        assert(s@ =~= position_text_of(p));
    }
    s
}

/// The characters of a text.
fn chars_of(s: &str) -> (r: Vec<char>)
    ensures
        r@ == s@,
{
    let mut r: Vec<char> = Vec::new();
    for c in it: s.chars()
        invariant
            r@ == it.seq().take(it.index() as int),
            it.seq() == s@,
    {
        r.push(c);
        proof {
            assert(r@ =~= it.seq().take(it.index() + 1));
        }
    }
    proof {
        assert(r@ =~= s@);
    }
    r
}

/// Digits after more digits only make a larger number.
proof fn lemma_digits_grow(s: Seq<char>, n: int)
    requires
        0 <= n <= s.len(),
        forall|k: int| 0 <= k < s.len() ==> is_digit(#[trigger] s[k]),
    ensures
        digits_value(s.take(n)) <= digits_value(s),
    decreases s.len() - n,
{
    if n < s.len() {
        lemma_digits_grow(s, n + 1);
        assert(s.take(n + 1).drop_last() =~= s.take(n));
    } else {
        assert(s.take(n) =~= s);
    }
}

/// The value of the digits of `s` from `start` to `end`, if it stays at most `limit`.
fn digits_at_most(s: &Vec<char>, start: usize, end: usize, limit: u64) -> (r: Option<u64>)
    requires
        start <= end <= s@.len(),
        9 <= limit <= 0x8000_0000,
    ensures
        r == if all_digits(s@.subrange(start as int, end as int)) && digits_value(
            s@.subrange(start as int, end as int),
        ) <= limit {
            Some(digits_value(s@.subrange(start as int, end as int)) as u64)
        } else {
            None::<u64>
        },
{
    let ghost d = s@.subrange(start as int, end as int);
    if start == end {
        return None;
    }
    let mut value: u64 = 0;
    let mut i: usize = start;
    while i < end
        invariant
            start <= i <= end <= s@.len(),
            d == s@.subrange(start as int, end as int),
            9 <= limit <= 0x8000_0000,
            forall|k: int| start <= k < i ==> is_digit(#[trigger] s@[k]),
            value == digits_value(d.take(i - start)),
            value <= limit,
        decreases end - i,
    {
        let c = s[i];
        if !('0' <= c && c <= '9') {
            proof {
                assert(d[i - start] == c);
            }
            return None;
        }
        let digit: u64 = (c as u32 - 48) as u64;
        proof {
            assert(d.take(i - start + 1).drop_last() =~= d.take(i - start));
            assert(d.take(i - start + 1).last() == c);
        }
        if value > (limit - digit) / 10 {
            proof {
                assert(digits_value(d.take(i - start + 1)) == value * 10 + digit);
                assert(value * 10 + digit > limit) by (nonlinear_arith)
                    requires
                        value > (limit - digit) / 10,
                        digit <= 9,
                        limit >= digit,
                ;
                if all_digits(d) {
                    lemma_digits_grow(d, i - start + 1);
                }
            }
            return None;
        }
        proof {
            assert(value * 10 + digit <= limit) by (nonlinear_arith)
                requires
                    value <= (limit - digit) / 10,
                    digit <= 9,
                    limit >= digit,
            ;
        }
        value = value * 10 + digit;
        i = i + 1;
    }
    proof {
        assert(d.take(i - start) =~= d);
        assert(all_digits(d));
    }
    Some(value)
}

/// The `i32` that the characters from `start` to `end` denote, as `str::parse` reads them.
fn parse_i32(s: &Vec<char>, start: usize, end: usize) -> (r: Option<i32>)
    requires
        start <= end <= s@.len(),
    ensures
        r == i32_of_text(s@.subrange(start as int, end as int)),
{
    let ghost t = s@.subrange(start as int, end as int);
    if start < end && s[start] == '-' {
        proof {
            assert(t.drop_first() =~= s@.subrange(start + 1, end as int));
        }
        return match digits_at_most(s, start + 1, end, 0x8000_0000) {
            Some(v) => Some((-(v as i64)) as i32),
            None => None,
        };
    }
    let digits_start = if start < end && s[start] == '+' {
        start + 1
    } else {
        start
    };
    proof {
        if start < end && s@[start as int] == '+' {
            assert(t.drop_first() =~= s@.subrange(start + 1, end as int));
        }
    }
    match digits_at_most(s, digits_start, end, 0x7fff_ffff) {
        Some(v) => Some(v as i32),
        None => None,
    }
}

/// Finds the first comma at or after `from`, before `end`.
fn find_comma(s: &Vec<char>, from: usize) -> (r: Option<usize>)
    requires
        from <= s@.len(),
    ensures
        match r {
            Some(k) => from <= k < s@.len() && s@[k as int] == ',' && comma_free(
                s@.subrange(from as int, k as int),
            ),
            None => comma_free(s@.subrange(from as int, s@.len() as int)),
        },
{
    let mut k: usize = from;
    while k < s.len()
        invariant
            from <= k <= s@.len(),
            forall|m: int| from <= m < k ==> #[trigger] s@[m] != ',',
        decreases s.len() - k,
    {
        if s[k] == ',' {
            proof {
                assert forall|m: int| 0 <= m < k - from implies #[trigger] s@.subrange(
                    from as int,
                    k as int,
                )[m] != ',' by {
                    assert(s@.subrange(from as int, k as int)[m] == s@[from + m]);
                }
            }
            return Some(k);
        }
        k = k + 1;
    }
    proof {
        assert forall|m: int| 0 <= m < s@.len() - from implies #[trigger] s@.subrange(
            from as int,
            s@.len() as int,
        )[m] != ',' by {
            assert(s@.subrange(from as int, s@.len() as int)[m] == s@[from + m]);
        }
    }
    None
}

/// The two commas of a text with three fields are unique.
proof fn lemma_three_fields_unique(s: Seq<char>, i: int, j: int, a: int, b: int)
    requires
        three_fields(s, i, j),
        three_fields(s, a, b),
    ensures
        i == a && j == b,
{
    if a < i {
        assert(s.subrange(0, i)[a] == s[a]);
    }
    if i < a {
        assert(s.subrange(0, a)[i] == s[i]);
    }
    if b < j {
        assert(s.subrange(i + 1, j)[b - i - 1] == s[b]);
    }
    if j < b {
        assert(s.subrange(a + 1, b)[j - a - 1] == s[j]);
    }
}

/// Reads a position from its text in a project file.
pub fn parse_position(text: &str) -> (r: Option<GridPosition>)
    ensures
        r == position_of_text(text@),
{
    let s = chars_of(text);
    let n = s.len();
    let first = find_comma(&s, 0);
    let i = match first {
        Some(i) => i,
        None => {
            proof {
                if exists|i: int, j: int| three_fields(s@, i, j) {
                    let (i, j) = choose|i: int, j: int| three_fields(s@, i, j);
                    assert(s@.subrange(0, s@.len() as int)[i] == s@[i]);
                }
            }
            return None;
        },
    };
    let second = find_comma(&s, i + 1);
    let j = match second {
        Some(j) => j,
        None => {
            proof {
                if exists|a: int, b: int| three_fields(s@, a, b) {
                    let (a, b) = choose|a: int, b: int| three_fields(s@, a, b);
                    if a < i {
                        assert(s@.subrange(0, i as int)[a] == s@[a]);
                    }
                    if i < a {
                        assert(s@.subrange(0, a)[i as int] == s@[i as int]);
                    }
                    assert(s@.subrange(i + 1, s@.len() as int)[b - i - 1] == s@[b]);
                }
            }
            return None;
        },
    };
    let third = find_comma(&s, j + 1);
    if third.is_some() {
        proof {
            let k = third->0;
            if exists|a: int, b: int| three_fields(s@, a, b) {
                let (a, b) = choose|a: int, b: int| three_fields(s@, a, b);
                if a < i {
                    assert(s@.subrange(0, i as int)[a] == s@[a]);
                }
                if i < a {
                    assert(s@.subrange(0, a)[i as int] == s@[i as int]);
                }
                if b < j {
                    assert(s@.subrange(i + 1, j as int)[b - i - 1] == s@[b]);
                }
                if j < b {
                    assert(s@.subrange(a + 1, b)[j - a - 1] == s@[j as int]);
                }
                assert(s@.subrange(b + 1, s@.len() as int)[k - b - 1] == s@[k as int]);
            }
        }
        return None;
    }
    proof {
        assert(three_fields(s@, i as int, j as int));
        let (a, b) = choose|a: int, b: int| three_fields(s@, a, b);
        lemma_three_fields_unique(s@, i as int, j as int, a, b);
    }
    let x = parse_i32(&s, 0, i);
    let y = parse_i32(&s, i + 1, j);
    let z = parse_i32(&s, j + 1, n);
    match (x, y, z) {
        (Some(x), Some(y), Some(z)) => Some(GridPosition { x, y, z }),
        _ => None,
    }
}

/// The decimal text of a number consists of digits that denote it.
pub proof fn lemma_decimal_digits(n: nat)
    ensures
        all_digits(decimal(n)),
        digits_value(decimal(n)) == n,
    decreases n,
{
    assert(digit_char(n % 10) as nat == 48 + n % 10);
    if n < 10 {
        assert(n % 10 == n);
        let d = decimal(n);
        assert(d.drop_last() =~= Seq::<char>::empty());
        assert(digits_value(d.drop_last()) == 0);
        assert(d.last() == digit_char(n));
        assert(digits_value(d) == digits_value(d.drop_last()) * 10 + (d.last() as nat - 48) as nat);
    }
    if n >= 10 {
        lemma_decimal_digits(n / 10);
        let d = decimal(n);
        assert(d.drop_last() =~= decimal(n / 10));
        assert(d.last() == digit_char(n % 10));
        assert(n == (n / 10) * 10 + n % 10);
        assert(digits_value(d) == digits_value(d.drop_last()) * 10 + (d.last() as nat - 48) as nat);
        assert forall|k: int| 0 <= k < d.len() implies is_digit(#[trigger] d[k]) by {
            if k < d.len() - 1 {
                assert(d[k] == decimal(n / 10)[k]);
            }
        }
    }
}

/// The text of an integer of `i32` reads back as that integer, and holds no comma.
pub proof fn lemma_int_text_reads_back(n: i32)
    ensures
        i32_of_text(int_text(n as int)) == Some(n),
        comma_free(int_text(n as int)),
{
    if n < 0 {
        let m = (-(n as int)) as nat;
        lemma_decimal_digits(m);
        let t = int_text(n as int);
        assert(t.drop_first() =~= decimal(m));
        assert forall|k: int| 0 <= k < t.len() implies #[trigger] t[k] != ',' by {
            if k > 0 {
                assert(t[k] == decimal(m)[k - 1]);
                assert(is_digit(decimal(m)[k - 1]));
            }
        }
    } else {
        lemma_decimal_digits(n as nat);
        let t = int_text(n as int);
        assert(is_digit(t[0]));
        assert forall|k: int| 0 <= k < t.len() implies #[trigger] t[k] != ',' by {
            assert(is_digit(t[k]));
        }
    }
}

/// Writing a position as text and reading the text gives the position back.
pub proof fn lemma_position_text_round_trip(p: GridPosition)
    ensures
        position_of_text(position_text_of(p)) == Some(p),
{
    lemma_int_text_reads_back(p.x);
    lemma_int_text_reads_back(p.y);
    lemma_int_text_reads_back(p.z);
    let tx = int_text(p.x as int);
    let ty = int_text(p.y as int);
    let tz = int_text(p.z as int);
    let s = position_text_of(p);
    let i = tx.len() as int;
    let j = i + 1 + ty.len() as int;
    assert(s.subrange(0, i) =~= tx);
    assert(s.subrange(i + 1, j) =~= ty);
    assert(s.subrange(j + 1, s.len() as int) =~= tz);
    assert(s[i] == ',');
    assert(s[j] == ',');
    assert(three_fields(s, i, j));
    let (a, b) = choose|a: int, b: int| three_fields(s, a, b);
    lemma_three_fields_unique(s, i, j, a, b);
}

} // verus!
