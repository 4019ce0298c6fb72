//! Text helpers: decimal digits, zero padding, counts parsed from cells and
//! lookups of a text in a list.
use vstd::prelude::*;

verus! {

/// Whether `c` is one of the ASCII digits `0` to `9`.
pub open spec fn is_digit(c: char) -> bool {
    48 <= (c as u32) && (c as u32) <= 57
}

/// The value of an ASCII digit.
pub open spec fn digit_value(c: char) -> nat {
    ((c as u32) - 48) as nat
}

/// Whether every character of `s` is an ASCII digit.
pub open spec fn all_digits(s: Seq<char>) -> bool {
    forall|i: int| 0 <= i < s.len() ==> #[trigger] is_digit(s[i])
}

/// The number written by the decimal digits `s` (most significant first).
pub open spec fn decimal_value(s: Seq<char>) -> nat
    decreases s.len(),
{
    if s.len() == 0 {
        0
    } else {
        decimal_value(s.drop_last()) * 10 + digit_value(s.last())
    }
}

/// The digits of a cell once an optional leading `+` is removed.
pub open spec fn unsigned_part(s: Seq<char>) -> Seq<char> {
    if s.len() > 0 && s[0] == '+' {
        s.drop_first()
    } else {
        s
    }
}

/// Whether `s` reads as a non-negative integer that fits in 32 bits:
/// an optional `+` and at least one decimal digit, nothing else.
pub open spec fn reads_as_count(s: Seq<char>) -> bool {
    let d = unsigned_part(s);
    d.len() > 0 && all_digits(d) && decimal_value(d) <= u32::MAX
}

/// The count that a monthly cell stands for: its value when it reads as a
/// count, zero otherwise.
pub open spec fn count_value(s: Seq<char>) -> nat {
    if reads_as_count(s) {
        decimal_value(unsigned_part(s))
    } else {
        0
    }
}

/// The character of the digit `d` (`0 <= d < 10`).
pub open spec fn digit_char(d: nat) -> char {
    if d == 0 {
        '0'
    } else if d == 1 {
        '1'
    } else if d == 2 {
        '2'
    } else if d == 3 {
        '3'
    } else if d == 4 {
        '4'
    } else if d == 5 {
        '5'
    } else if d == 6 {
        '6'
    } else if d == 7 {
        '7'
    } else if d == 8 {
        '8'
    } else {
        '9'
    }
}

/// The shortest decimal writing of `n`.
pub open spec fn decimal_text(n: nat) -> Seq<char>
    decreases n,
{
    if n < 10 {
        seq![digit_char(n)]
    } else {
        decimal_text(n / 10).push(digit_char(n % 10))
    }
}

/// `s` with zeros put in front until it is `width` characters long.
pub open spec fn zero_pad(s: Seq<char>, width: nat) -> Seq<char> {
    if s.len() >= width {
        s
    } else {
        Seq::new((width - s.len()) as nat, |i: int| '0') + s
    }
}

/// The position of the first element of `s` equal to `x`, or -1.
pub open spec fn first_index(s: Seq<Seq<char>>, x: Seq<char>) -> int
    decreases s.len(),
{
    if s.len() == 0 {
        -1
    } else {
        let k = first_index(s.drop_last(), x);
        if k >= 0 {
            k
        } else if s.last() == x {
            s.len() - 1
        } else {
            -1
        }
    }
}

/// The views of a list of strings.
pub open spec fn texts(v: Seq<String>) -> Seq<Seq<char>> {
    v.map_values(|s: String| s@)
}

pub proof fn lemma_first_index_bounds(s: Seq<Seq<char>>, x: Seq<char>)
    ensures
        -1 <= first_index(s, x) < s.len(),
        first_index(s, x) >= 0 ==> s[first_index(s, x)] == x,
        first_index(s, x) >= 0 ==> forall|j: int| 0 <= j < first_index(s, x) ==> s[j] != x,
        first_index(s, x) < 0 ==> forall|j: int| 0 <= j < s.len() ==> s[j] != x,
    decreases s.len(),
{
    if s.len() > 0 {
        lemma_first_index_bounds(s.drop_last(), x);
        assert forall|j: int| 0 <= j < s.len() - 1 implies s.drop_last()[j] == s[j] by {}
    }
}

/// In a list without repeats, the first position of an element is its position.
pub proof fn lemma_first_index_distinct(s: Seq<Seq<char>>, i: int)
    requires
        0 <= i < s.len(),
        forall|a: int, b: int| 0 <= a < b < s.len() ==> s[a] != s[b],
    ensures
        first_index(s, s[i]) == i,
{
    lemma_first_index_bounds(s, s[i]);
}

/// Pushing an element keeps the first position of every text already there,
/// and a text not there before is found at the end.
pub proof fn lemma_first_index_push(s: Seq<Seq<char>>, y: Seq<char>, x: Seq<char>)
    ensures
        first_index(s, x) >= 0 ==> first_index(s.push(y), x) == first_index(s, x),
        first_index(s, x) < 0 && y == x ==> first_index(s.push(y), x) == s.len(),
        first_index(s, x) < 0 && y != x ==> first_index(s.push(y), x) < 0,
{
    assert(s.push(y).drop_last() =~= s);
}

proof fn lemma_decimal_prefix_le(s: Seq<char>, k: int)
    requires
        0 <= k <= s.len(),
    ensures
        decimal_value(s.take(k)) <= decimal_value(s),
    decreases s.len(),
{
    if k == s.len() {
        assert(s.take(k) =~= s);
    } else {
        lemma_decimal_prefix_le(s.drop_last(), k);
        assert(s.drop_last().take(k) =~= s.take(k));
    }
}

/// Parses a cell as a non-negative integer of 32 bits: an optional `+`
/// followed by decimal digits only.
pub fn parse_count(s: &str) -> (r: Option<u32>)
    ensures
        r is Some <==> reads_as_count(s@),
        r matches Some(n) ==> n as nat == decimal_value(unsigned_part(s@)),
{
    let n = s.unicode_len();
    let mut start: usize = 0;
    if n > 0 && s.get_char(0) == '+' {
        start = 1;
    }
    let ghost d = unsigned_part(s@);
    assert(d =~= s@.subrange(start as int, n as int));
    if start >= n {
        return None;
    }
    let mut i: usize = start;
    let mut acc: u64 = 0;
    while i < n
        invariant
            start <= i <= n,
            n == s@.len(),
            d == s@.subrange(start as int, n as int),
            d == unsigned_part(s@),
            all_digits(d.take(i - start)),
            acc as nat == decimal_value(d.take(i - start)),
            acc <= u32::MAX,
        decreases n - i,
    {
        let c = s.get_char(i);
        let cv = c as u32;
        if cv < 48 || cv > 57 {
            assert(d[i - start] == c);
            assert(!is_digit(d[i - start]));
            assert(!all_digits(d));
            return None;
        }
        let ghost k = i - start;
        assert(d.take(k + 1).drop_last() =~= d.take(k));
        assert(d.take(k + 1).last() == c);
        assert(decimal_value(d.take(k + 1)) == decimal_value(d.take(k)) * 10 + digit_value(c));
        acc = acc * 10 + (cv - 48) as u64;
        i = i + 1;
        assert(all_digits(d.take(k + 1))) by {
            assert forall|j: int| 0 <= j < k + 1 implies #[trigger] is_digit(d.take(k + 1)[j]) by {
                if j < k {
                    assert(d.take(k + 1)[j] == d.take(k)[j]);
                }
            }
        }
        if acc > 0xffff_ffff {
            proof {
                lemma_decimal_prefix_le(d, k + 1);
            }
            return None;
        }
    }
    assert(d.take(n - start) =~= d);
    Some(acc as u32)
}

/// The count that a monthly cell stands for: what it reads as when it is a
/// non-negative integer of 32 bits, zero when it is empty, negative,
/// non-numeric or out of range.
pub fn only_positives(field: &str) -> (r: u32)
    ensures
        r as nat == count_value(field@),
{
    match parse_count(field) {
        Some(n) => n,
        None => 0,
    }
}

fn digit_str(d: u128) -> (r: &'static str)
    requires
        d < 10,
    ensures
        r@ == seq![digit_char(d as nat)],
{
    proof {
        reveal_strlit("0");
        reveal_strlit("1");
        reveal_strlit("2");
        reveal_strlit("3");
        reveal_strlit("4");
        reveal_strlit("5");
        reveal_strlit("6");
        reveal_strlit("7");
        reveal_strlit("8");
        reveal_strlit("9");
    }
    if d == 0 {
        "0"
    } else if d == 1 {
        "1"
    } else if d == 2 {
        "2"
    } else if d == 3 {
        "3"
    } else if d == 4 {
        "4"
    } else if d == 5 {
        "5"
    } else if d == 6 {
        "6"
    } else if d == 7 {
        "7"
    } else if d == 8 {
        "8"
    } else {
        assert(seq!['9'] =~= "9"@);
        "9"
    }
}

/// The shortest decimal writing of `n`.
pub fn decimal_string(n: u128) -> (r: String)
    ensures
        r@ == decimal_text(n as nat),
    decreases n,
{
    if n < 10 {
        String::from_str(digit_str(n))
    } else {
        let mut s = decimal_string(n / 10);
        s.append(digit_str(n % 10));
        s
    }
}

/// `s` with zeros put in front until it is `width` characters long; a
/// longer `s` is kept as it is.
pub fn left_pad_zeros(s: &str, width: usize) -> (r: String)
    ensures
        r@ == zero_pad(s@, width as nat),
        r@.len() == if s@.len() >= width { s@.len() } else { width as nat },
{
    let n = s.unicode_len();
    let mut r = String::new();
    if n < width {
        let fill = width - n;
        let mut k: usize = 0;
        proof {
            reveal_strlit("0");
        }
        while k < fill
            invariant
                k <= fill,
                r@ =~= Seq::new(k as nat, |i: int| '0'),
            decreases fill - k,
        {
            proof {
                reveal_strlit("0");
            }
            r.append("0");
            k = k + 1;
        }
    }
    r.append(s);
    r
}

/// The position of the first string in `v` that equals `x`.
pub fn find_text(v: &Vec<String>, x: &String) -> (r: Option<usize>)
    ensures
        r is None <==> first_index(texts(v@), x@) < 0,
        r matches Some(i) ==> i as int == first_index(texts(v@), x@),
{
    let ghost t = texts(v@);
    proof {
        lemma_first_index_bounds(t, x@);
    }
    let mut i: usize = 0;
    while i < v.len()
        invariant
            i <= v@.len(),
            t == texts(v@),
            forall|j: int| 0 <= j < i ==> t[j] != x@,
            -1 <= first_index(t, x@) < t.len(),
            first_index(t, x@) >= 0 ==> t[first_index(t, x@)] == x@,
            first_index(t, x@) >= 0 ==> forall|j: int| 0 <= j < first_index(t, x@) ==> t[j] != x@,
            first_index(t, x@) < 0 ==> forall|j: int| 0 <= j < t.len() ==> t[j] != x@,
        decreases v@.len() - i,
    {
        if v[i] == *x {
            assert(t[i as int] == v@[i as int]@);
            return Some(i);
        }
        assert(t[i as int] == v@[i as int]@);
        i = i + 1;
    }
    None
}

proof fn lemma_digit_char(d: nat)
    requires
        d < 10,
    ensures
        is_digit(digit_char(d)),
        digit_value(digit_char(d)) == d,
        d > 0 ==> digit_char(d) != '0',
{
}

/// A decimal writing is non-empty, made of digits, has no leading zero, and
/// is at least two characters long from ten on.
pub proof fn lemma_decimal_text_shape(n: nat)
    ensures
        decimal_text(n).len() >= 1,
        all_digits(decimal_text(n)),
        n >= 1 ==> decimal_text(n)[0] != '0',
        n >= 10 ==> decimal_text(n).len() >= 2,
        n < 10 ==> decimal_text(n) == seq![digit_char(n)],
        decimal_value(decimal_text(n)) == n,
    decreases n,
{
    lemma_digit_char(n % 10);
    if n >= 10 {
        lemma_decimal_text_shape(n / 10);
        let t = decimal_text(n);
        assert(t.drop_last() =~= decimal_text(n / 10));
        assert(t.last() == digit_char(n % 10));
        assert(decimal_value(t) == decimal_value(t.drop_last()) * 10 + digit_value(t.last()));
        assert((n / 10) * 10 + n % 10 == n);
        assert forall|i: int| 0 <= i < t.len() implies #[trigger] is_digit(t[i]) by {
            if i < t.len() - 1 {
                assert(t[i] == decimal_text(n / 10)[i]);
            }
        }
    } else {
        let t = seq![digit_char(n)];
        assert(t.drop_last() =~= Seq::<char>::empty());
        assert(decimal_value(t) == decimal_value(t.drop_last()) * 10 + digit_value(t.last()));
        assert(decimal_value(Seq::<char>::empty()) == 0);
    }
}

/// Distinct numbers have distinct decimal writings.
pub proof fn lemma_decimal_text_injective(n: nat, m: nat)
    requires
        decimal_text(n) == decimal_text(m),
    ensures
        n == m,
{
    lemma_decimal_text_shape(n);
    lemma_decimal_text_shape(m);
}

/// Distinct ordinals from one on give distinct zero-padded writings.
pub proof fn lemma_padded_decimal_injective(n: nat, m: nat, width: nat)
    requires
        zero_pad(decimal_text(n), width) == zero_pad(decimal_text(m), width),
        n >= 1,
        m >= 1,
    ensures
        n == m,
{
    let a = decimal_text(n);
    let b = decimal_text(m);
    lemma_decimal_text_shape(n);
    lemma_decimal_text_shape(m);
    if a.len() >= width && b.len() >= width {
        lemma_decimal_text_injective(n, m);
    } else if a.len() < width && b.len() < width {
        let pa = Seq::new((width - a.len()) as nat, |i: int| '0');
        let pb = Seq::new((width - b.len()) as nat, |i: int| '0');
        if a.len() != b.len() {
            if a.len() < b.len() {
                assert((pb + b)[pb.len() as int] == b[0]);
                assert((pa + a)[pb.len() as int] == '0');
            } else {
                assert((pa + a)[pa.len() as int] == a[0]);
                assert((pb + b)[pa.len() as int] == '0');
            }
        } else {
            assert(a =~= (pa + a).subrange(pa.len() as int, width as int));
            assert(b =~= (pb + b).subrange(pb.len() as int, width as int));
            lemma_decimal_text_injective(n, m);
        }
    } else if a.len() < width {
        let pa = Seq::new((width - a.len()) as nat, |i: int| '0');
        assert((pa + a)[0] == '0');
        assert(b[0] != '0');
    } else {
        let pb = Seq::new((width - b.len()) as nat, |i: int| '0');
        assert((pb + b)[0] == '0');
        assert(a[0] != '0');
    }
}

} // verus!
