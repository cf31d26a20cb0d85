//! Building display text: decimal numerals, rounding, padding and joining.

use vstd::prelude::*;

verus! {

/// The character that writes the decimal digit `d`.
pub open spec fn digit(d: int) -> char {
    if d == 0 {
        '0'
    } else if d == 1 {
        '1'
    } else if d == 2 {
        '2'
    } else if d == 3 {
        '3'
    } else if d == 4 {
        '4'
    } else if d == 5 {
        '5'
    } else if d == 6 {
        '6'
    } else if d == 7 {
        '7'
    } else if d == 8 {
        '8'
    } else {
        '9'
    }
}

/// The decimal numeral of `n`, without leading zeros.
pub open spec fn decimal(n: nat) -> Seq<char>
    decreases n,
{
    if n < 10 {
        seq![digit(n as int)]
    } else {
        decimal(n / 10).push(digit((n % 10) as int))
    }
}

/// `k` spaces.
pub open spec fn spaces(k: nat) -> Seq<char> {
    Seq::new(k, |i: int| ' ')
}

/// `s` right-aligned in a field of `width` characters; a longer `s` is kept whole.
pub open spec fn pad_left(s: Seq<char>, width: nat) -> Seq<char> {
    if s.len() >= width {
        s
    } else {
        spaces((width - s.len()) as nat) + s
    }
}

/// `num / den` rounded to the nearest integer, a tie going to the even neighbour.
pub open spec fn round_half_even(num: nat, den: nat) -> nat
    recommends
        den > 0,
{
    let q = num / den;
    let r = num % den;
    if 2 * r > den || (2 * r == den && q % 2 == 1) {
        q + 1
    } else {
        q
    }
}

/// The numeral of `hundredths / 100` with exactly two decimals.
pub open spec fn two_decimals(hundredths: nat) -> Seq<char> {
    decimal(hundredths / 100) + seq!['.', digit(((hundredths / 10) % 10) as int), digit((hundredths % 10) as int)]
}

/// The items of `parts` written one after another with `sep` between neighbours.
pub open spec fn join(parts: Seq<Seq<char>>, sep: Seq<char>) -> Seq<char>
    decreases parts.len(),
{
    if parts.len() == 0 {
        Seq::empty()
    } else if parts.len() == 1 {
        parts[0]
    } else {
        parts[0] + sep + join(parts.skip(1), sep)
    }
}

/// The views of a vector of strings.
pub open spec fn views(v: Seq<String>) -> Seq<Seq<char>> {
    Seq::new(v.len(), |i: int| v[i]@)
}

/// Ten to the power `k`.
pub open spec fn pow10(k: nat) -> nat
    decreases k,
{
    if k == 0 {
        1
    } else {
        10 * pow10((k - 1) as nat)
    }
}

/// A number below ten to the power `k` has at most `k` digits.
pub proof fn lemma_decimal_len(n: nat, k: nat)
    requires
        k >= 1,
        n < pow10(k),
    ensures
        1 <= decimal(n).len() <= k,
    decreases k,
{
    reveal_with_fuel(pow10, 2);
    if n >= 10 {
        lemma_decimal_len(n / 10, (k - 1) as nat);
    }
}

/// A 64-bit number has at most twenty digits.
pub proof fn lemma_decimal_len_u64(n: u64)
    ensures
        1 <= decimal(n as nat).len() <= 20,
{
    assert(pow10(20) == 100_000_000_000_000_000_000) by {
        reveal_with_fuel(pow10, 21);
    }
    lemma_decimal_len(n as nat, 20);
}

fn digit_str(d: u8) -> (s: &'static str)
    requires
        d < 10,
    ensures
        s@ == seq![digit(d as int)],
{
    proof {
        reveal_strlit("0");
        reveal_strlit("1");
        reveal_strlit("2");
        reveal_strlit("3");
        reveal_strlit("4");
        reveal_strlit("5");
        reveal_strlit("6");
        reveal_strlit("7");
        reveal_strlit("8");
        reveal_strlit("9");
    }
    let s: &'static str = if d == 0 {
        "0"
    } else if d == 1 {
        "1"
    } else if d == 2 {
        "2"
    } else if d == 3 {
        "3"
    } else if d == 4 {
        "4"
    } else if d == 5 {
        "5"
    } else if d == 6 {
        "6"
    } else if d == 7 {
        "7"
    } else if d == 8 {
        "8"
    } else {
        "9"
    };
    assert(s@ =~= seq![digit(d as int)]);
    s
}

/// Writes `n` in decimal.
pub fn decimal_string(n: u128) -> (s: String)
    ensures
        s@ == decimal(n as nat),
    decreases n,
{
    if n < 10 {
        digit_str(n as u8).to_owned()
    } else {
        let mut s: String = decimal_string(n / 10);
        s.append(digit_str((n % 10) as u8));
        assert(s@ =~= decimal(n as nat));
        s
    }
}

/// Whether two string slices hold the same characters.
pub fn same_text(a: &str, b: &str) -> (r: bool)
    ensures
        r == (a@ == b@),
{
    a.to_owned() == b.to_owned()
}

/// The number of characters of `s`.
pub fn char_count(s: &String) -> (n: usize)
    ensures
        n == s@.len(),
{
    s.as_str().unicode_len()
}

/// Right-aligns `s` in a field of `width` characters.
pub fn pad_left_string(s: &String, width: usize) -> (r: String)
    ensures
        r@ == pad_left(s@, width as nat),
{
    let len: usize = char_count(s);
    let mut r: String = String::new();
    if len < width {
        let fill: usize = width - len;
        let mut i: usize = 0;
        while i < fill
            invariant
                i <= fill,
                r@ == spaces(i as nat),
            decreases fill - i,
        {
            proof {
                reveal_strlit(" ");
            }
            r.append(" ");
            i += 1;
            assert(r@ =~= spaces(i as nat));
        }
    }
    r.append(s.as_str());
    assert(r@ =~= pad_left(s@, width as nat));
    r
}

/// Rounds `num / den` to the nearest integer, a tie going to the even neighbour.
pub fn round_half_even_u128(num: u128, den: u128) -> (r: u128)
    requires
        den > 0,
        den <= u128::MAX / 2,
    ensures
        r == round_half_even(num as nat, den as nat),
{
    let q: u128 = num / den;
    let r: u128 = num % den;
    if 2 * r > den || (2 * r == den && q % 2 == 1) {
        assert(q < u128::MAX) by (nonlinear_arith)
            requires
                q == num as int / den as int,
                r == num as int % den as int,
                2 * r >= den,
                den > 0,
                num <= u128::MAX,
        {
            assert(num as int == den as int * (num as int / den as int) + num as int % den as int);
        }
        q + 1
    } else {
        q
    }
}

/// Writes `hundredths / 100` with exactly two decimals.
pub fn two_decimals_string(hundredths: u128) -> (s: String)
    ensures
        s@ == two_decimals(hundredths as nat),
{
    let mut s: String = decimal_string(hundredths / 100);
    proof {
        reveal_strlit(".");
    }
    s.append(".");
    s.append(digit_str(((hundredths / 10) % 10) as u8));
    s.append(digit_str((hundredths % 10) as u8));
    assert(s@ =~= two_decimals(hundredths as nat));
    s
}

/// Joining one more item onto a non-empty list adds the separator and the item.
pub proof fn lemma_join_push(parts: Seq<Seq<char>>, sep: Seq<char>, item: Seq<char>)
    ensures
        join(parts.push(item), sep) == if parts.len() == 0 {
            item
        } else {
            join(parts, sep) + sep + item
        },
    decreases parts.len(),
{
    let whole = parts.push(item);
    if parts.len() == 0 {
        assert(whole[0] == item);
    } else if parts.len() == 1 {
        assert(whole.skip(1) =~= seq![item]);
        assert(join(whole.skip(1), sep) == item);
        assert(whole[0] == parts[0]);
    } else {
        lemma_join_push(parts.skip(1), sep, item);
        assert(whole.skip(1) =~= parts.skip(1).push(item));
        assert(whole[0] == parts[0]);
        assert(join(whole, sep) =~= join(parts, sep) + sep + item);
    }
}

/// Joins `parts` with `sep` between neighbours.
pub fn join_strings(parts: &Vec<String>, sep: &str) -> (s: String)
    ensures
        s@ == join(views(parts@), sep@),
{
    let mut s: String = String::new();
    let ghost all: Seq<Seq<char>> = views(parts@);
    let mut i: usize = 0;
    while i < parts.len()
        invariant
            i <= parts.len(),
            all == views(parts@),
            s@ == join(all.take(i as int), sep@),
        decreases parts.len() - i,
    {
        proof {
            lemma_join_push(all.take(i as int), sep@, parts[i as int]@);
            assert(all.take(i + 1) =~= all.take(i as int).push(parts[i as int]@));
        }
        if i > 0 {
            s.append(sep);
        }
        s.append(parts[i].as_str());
        i += 1;
    }
    assert(all.take(parts.len() as int) =~= all);
    s
}

/// Copies a list of strings.
pub fn clone_strings(v: &Vec<String>) -> (copy: Vec<String>)
    ensures
        views(copy@) == views(v@),
{
    let mut copy: Vec<String> = Vec::new();
    let mut i: usize = 0;
    while i < v.len()
        invariant
            i <= v.len(),
            copy.len() == i,
            views(copy@) == views(v@).take(i as int),
        decreases v.len() - i,
    {
        let ghost earlier: Seq<String> = copy@;
        let item: String = v[i].clone();
        copy.push(item);
        proof {
            assert forall|j: int| 0 <= j < i + 1 implies views(copy@)[j] == views(v@)[j] by {
                if j < i {
                    assert(copy@[j] == earlier[j]);
                    assert(views(earlier)[j] == views(v@).take(i as int)[j]);
                }
            }
            assert(views(copy@) =~= views(v@).take(i + 1));
        }
        i += 1;
    }
    assert(views(v@).take(v.len() as int) =~= views(v@));
    copy
}

/// Whether two lists hold the same strings in the same order.
pub fn same_strings(a: &Vec<String>, b: &Vec<String>) -> (r: bool)
    ensures
        r == (views(a@) == views(b@)),
{
    if a.len() != b.len() {
        assert(views(a@).len() != views(b@).len());
        return false;
    }
    let mut i: usize = 0;
    while i < a.len()
        invariant
            i <= a.len(),
            a.len() == b.len(),
            forall|j: int| 0 <= j < i ==> a[j]@ == b[j]@,
        decreases a.len() - i,
    {
        if a[i] != b[i] {
            assert(views(a@)[i as int] != views(b@)[i as int]);
            return false;
        }
        i += 1;
    }
    assert(views(a@) =~= views(b@));
    true
}

} // verus!
