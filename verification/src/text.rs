//! Decimal integers and `/`-separated fields in text.
//!
//! Topics and payloads travel as text. This module fixes what a decimal
//! integer looks like, how a line is cut into fields, and proves that reading
//! undoes writing.
use vstd::prelude::*;
use vstd::std_specs::iter::IteratorSpec;

verus! {

/// The character that stands for the digit `d`, for `0 <= d <= 9`.
pub open spec fn digit_char(d: int) -> char {
    (d + 48) as char
}

/// Whether `c` is one of `0` to `9`.
pub open spec fn is_digit(c: char) -> bool {
    48 <= c as int <= 57
}

/// The number that the digit `c` stands for.
pub open spec fn digit_value(c: char) -> int {
    c as int - 48
}

/// Whether `s` holds digits only.
pub open spec fn all_digits(s: Seq<char>) -> bool {
    forall|i: int| 0 <= i < s.len() ==> is_digit(#[trigger] s[i])
}

/// The decimal digits of `n`, most significant first, without leading zeros.
pub open spec fn nat_text(n: nat) -> Seq<char>
    decreases n,
{
    if n < 10 {
        seq![digit_char(n as int)]
    } else {
        nat_text(n / 10).push(digit_char((n % 10) as int))
    }
}

/// The decimal text of `v`: a minus sign for a negative number, then its digits.
pub open spec fn int_text(v: int) -> Seq<char> {
    if v < 0 {
        seq!['-'] + nat_text((-v) as nat)
    } else {
        nat_text(v as nat)
    }
}

/// The number that a run of digits denotes; leading zeros are allowed.
pub open spec fn digits_value(s: Seq<char>) -> nat
    decreases s.len(),
{
    if s.len() == 0 {
        0
    } else {
        (digits_value(s.drop_last()) * 10 + digit_value(s.last())) as nat
    }
}

/// The digits of a signed decimal number: the text without a leading sign.
pub open spec fn unsigned_part(s: Seq<char>) -> Seq<char> {
    if s.len() > 0 && (s[0] == '-' || s[0] == '+') {
        s.drop_first()
    } else {
        s
    }
}

/// The integer that `s` denotes as a signed decimal number, if it is one.
///
/// A number is an optional `+` or `-`, then at least one digit, and nothing
/// else. No bound is put on its size here.
pub open spec fn signed_value(s: Seq<char>) -> Option<int> {
    let digits = unsigned_part(s);
    if digits.len() == 0 || !all_digits(digits) {
        None
    } else if s[0] == '-' {
        Some(-(digits_value(digits) as int))
    } else {
        Some(digits_value(digits) as int)
    }
}

/// The 32-bit integer that `s` denotes, if it denotes one that fits.
pub open spec fn parse_int(s: Seq<char>) -> Option<int> {
    match signed_value(s) {
        Some(v) => if i32::MIN <= v <= i32::MAX {
            Some(v)
        } else {
            None
        },
        None => None,
    }
}

/// The positions among the first `n` characters of `s` that hold `sep`, ascending.
pub open spec fn separators(s: Seq<char>, sep: char, n: int) -> Seq<int>
    decreases n,
{
    if n <= 0 {
        Seq::empty()
    } else if s[n - 1] == sep {
        separators(s, sep, n - 1).push(n - 1)
    } else {
        separators(s, sep, n - 1)
    }
}

/// Where field `k` starts, given the separator positions `cuts`.
pub open spec fn field_start(cuts: Seq<int>, k: int) -> int {
    if k <= 0 {
        0
    } else {
        cuts[k - 1] + 1
    }
}

/// Where field `k` ends (exclusive), given the separator positions `cuts` in a
/// text of length `len`.
pub open spec fn field_end(cuts: Seq<int>, len: int, k: int) -> int {
    if k >= cuts.len() {
        len
    } else {
        cuts[k]
    }
}

/// The fields of `s` between occurrences of `sep`. A text without `sep` is one
/// field; the empty text is one empty field.
pub open spec fn split(s: Seq<char>, sep: char) -> Seq<Seq<char>> {
    let cuts = separators(s, sep, s.len() as int);
    Seq::new(
        cuts.len() + 1,
        |k: int| s.subrange(field_start(cuts, k), field_end(cuts, s.len() as int, k)),
    )
}

/// Separator positions are ascending, lie below `n`, and are exactly the
/// positions that hold `sep`.
pub proof fn lemma_separators(s: Seq<char>, sep: char, n: int)
    requires
        0 <= n <= s.len(),
    ensures
        separators(s, sep, n).len() <= n,
        forall|k: int|
            0 <= k < separators(s, sep, n).len() ==> 0 <= #[trigger] separators(s, sep, n)[k] < n
                && s[separators(s, sep, n)[k]] == sep,
        forall|j: int, k: int|
            0 <= j < k < separators(s, sep, n).len() ==> separators(s, sep, n)[j] < separators(
                s,
                sep,
                n,
            )[k],
        forall|i: int|
            0 <= i < n && s[i] == sep ==> separators(s, sep, n).contains(i),
    decreases n,
{
    if n > 0 {
        lemma_separators(s, sep, n - 1);
        let prev = separators(s, sep, n - 1);
        let cur = separators(s, sep, n);
        assert forall|i: int| 0 <= i < n && s[i] == sep implies cur.contains(i) by {
            if i < n - 1 {
                let k = choose|k: int| 0 <= k < prev.len() && prev[k] == i;
                assert(cur[k] == i);
            } else {
                assert(cur[cur.len() - 1] == i);
            }
        }
    }
}

/// A text without `sep` has no separator positions.
pub proof fn lemma_separators_none(s: Seq<char>, sep: char, n: int)
    requires
        0 <= n <= s.len(),
        forall|i: int| 0 <= i < n ==> s[i] != sep,
    ensures
        separators(s, sep, n) == Seq::<int>::empty(),
    decreases n,
{
    if n > 0 {
        lemma_separators_none(s, sep, n - 1);
    }
}

/// The separators of `head + [sep] + tail`, where `head` holds no `sep`, are
/// the end of `head` and then the separators of `tail`, shifted.
pub proof fn lemma_separators_cons(head: Seq<char>, tail: Seq<char>, sep: char, n: int)
    requires
        forall|i: int| 0 <= i < head.len() ==> head[i] != sep,
        0 <= n <= tail.len(),
    ensures
        separators(head.push(sep) + tail, sep, head.len() + 1 + n) == seq![head.len() as int]
            + separators(tail, sep, n).map_values(|p: int| p + head.len() + 1),
    decreases n,
{
    let whole = head.push(sep) + tail;
    let shift = |p: int| p + head.len() + 1;
    if n == 0 {
        assert(separators(whole, sep, head.len() as int) == Seq::<int>::empty()) by {
            lemma_separators_none(whole, sep, head.len() as int);
        }
        assert(whole[head.len() as int] == sep);
        assert(separators(tail, sep, 0).map_values(shift) =~= Seq::<int>::empty());
        assert(separators(whole, sep, head.len() as int + 1) =~= seq![head.len() as int]);
    } else {
        lemma_separators_cons(head, tail, sep, n - 1);
        assert(whole[head.len() + n] == tail[n - 1]);
        if tail[n - 1] == sep {
            assert(separators(tail, sep, n).map_values(shift) =~= separators(
                tail,
                sep,
                n - 1,
            ).map_values(shift).push(head.len() + n));
        }
    }
}

/// Splitting `head + [sep] + tail`, where `head` holds no `sep`, gives `head`
/// and then the fields of `tail`.
pub proof fn lemma_split_cons(head: Seq<char>, tail: Seq<char>, sep: char)
    requires
        forall|i: int| 0 <= i < head.len() ==> head[i] != sep,
    ensures
        split(head.push(sep) + tail, sep) == seq![head] + split(tail, sep),
{
    let whole = head.push(sep) + tail;
    let shift = |p: int| p + head.len() + 1;
    let tcuts = separators(tail, sep, tail.len() as int);
    let wcuts = separators(whole, sep, whole.len() as int);
    lemma_separators_cons(head, tail, sep, tail.len() as int);
    lemma_separators(tail, sep, tail.len() as int);
    assert(wcuts == seq![head.len() as int] + tcuts.map_values(shift));
    let left = split(whole, sep);
    let right = seq![head] + split(tail, sep);
    assert(left.len() == right.len());
    assert forall|k: int| 0 <= k < left.len() implies left[k] == right[k] by {
        if k == 0 {
            assert(wcuts[0] == head.len());
            assert(left[0] =~= head);
        } else {
            let a = field_start(tcuts, k - 1);
            let b = field_end(tcuts, tail.len() as int, k - 1);
            assert(field_start(wcuts, k) == a + head.len() + 1) by {
                if k - 1 > 0 {
                    assert(wcuts[k - 1] == tcuts.map_values(shift)[k - 2]);
                }
            }
            assert(field_end(wcuts, whole.len() as int, k) == b + head.len() + 1) by {
                if k < wcuts.len() {
                    assert(wcuts[k] == tcuts.map_values(shift)[k - 1]);
                }
            }
            assert(0 <= a <= b <= tail.len()) by {
                if k - 1 > 0 && k - 1 < tcuts.len() {
                    assert(tcuts[k - 2] < tcuts[k - 1]);
                }
            }
            assert(left[k] =~= tail.subrange(a, b));
        }
    }
    assert(left =~= right);
}

/// A text without `sep` is a single field.
pub proof fn lemma_split_single(s: Seq<char>, sep: char)
    requires
        forall|i: int| 0 <= i < s.len() ==> s[i] != sep,
    ensures
        split(s, sep) == seq![s],
{
    lemma_separators_none(s, sep, s.len() as int);
    assert(split(s, sep)[0] =~= s);
    assert(split(s, sep) =~= seq![s]);
}

/// The digits of a number are digits, at least one of them, and denote it.
pub proof fn lemma_nat_text(n: nat)
    ensures
        nat_text(n).len() >= 1,
        all_digits(nat_text(n)),
        digits_value(nat_text(n)) == n,
    decreases n,
{
    if n < 10 {
        let s = nat_text(n);
        assert(s.drop_last() =~= Seq::<char>::empty());
        assert(digits_value(s.drop_last()) == 0);
        assert(s.last() == digit_char(n as int));
    } else {
        lemma_nat_text(n / 10);
        let s = nat_text(n);
        assert(s.drop_last() =~= nat_text(n / 10));
        assert(s.last() == digit_char((n % 10) as int));
    }
}

/// Reading the decimal text of a 32-bit integer gives the integer back.
pub proof fn lemma_parse_int_text(v: int)
    requires
        i32::MIN <= v <= i32::MAX,
    ensures
        parse_int(int_text(v)) == Some(v),
{
    if v < 0 {
        let n = (-v) as nat;
        lemma_nat_text(n);
        let s = int_text(v);
        assert(s[0] == '-');
        assert(unsigned_part(s) =~= nat_text(n));
    } else {
        let n = v as nat;
        lemma_nat_text(n);
        let s = int_text(v);
        assert(is_digit(s[0]));
        assert(unsigned_part(s) =~= s);
    }
}

/// The decimal text of an integer holds no character other than digits and a
/// leading minus sign.
pub proof fn lemma_int_text_chars(v: int, c: char)
    requires
        !is_digit(c),
        c != '-',
    ensures
        !int_text(v).contains(c),
{
    if v < 0 {
        lemma_nat_text((-v) as nat);
    } else {
        lemma_nat_text(v as nat);
    }
}

/// A run of digits denotes at least what any of its prefixes denotes.
pub proof fn lemma_digits_value_prefix(s: Seq<char>, k: int)
    requires
        all_digits(s),
        0 <= k <= s.len(),
    ensures
        digits_value(s.take(k)) <= digits_value(s),
    decreases s.len() - k,
{
    if k == s.len() {
        assert(s.take(k) =~= s);
    } else {
        lemma_digits_value_prefix(s, k + 1);
        assert(s.take(k + 1).drop_last() =~= s.take(k));
        assert(is_digit(s.take(k + 1).last()));
    }
}

/// The characters of `s`, in order.
pub fn chars_of(s: &str) -> (v: Vec<char>)
    ensures
        v@ == s@,
{
    let mut v: Vec<char> = Vec::new();
    let mut it = s.chars();
    loop
        invariant
            v@ + it.remaining() == s@,
        ensures
            v@ == s@,
        decreases s@.len() - v@.len(),
    {
        match it.next() {
            Some(c) => {
                v.push(c);
            },
            None => {
                break ;
            },
        }
    }
    v
}

/// Whether the characters of `chars` from `from` up to `to` spell `word`.
pub fn field_is(chars: &Vec<char>, from: usize, to: usize, word: &str) -> (same: bool)
    requires
        from <= to <= chars.len(),
    ensures
        same == (chars@.subrange(from as int, to as int) == word@),
{
    let n: usize = word.unicode_len();
    if to - from != n {
        return false;
    }
    let mut i: usize = 0;
    while i < n
        invariant
            from <= to <= chars.len(),
            to - from == n,
            n == word@.len(),
            i <= n,
            forall|j: int| 0 <= j < i ==> chars@[from + j] == word@[j],
        decreases n - i,
    {
        if chars[from + i] != word.get_char(i) {
            assert(chars@.subrange(from as int, to as int)[i as int] != word@[i as int]);
            return false;
        }
        i += 1;
    }
    assert(chars@.subrange(from as int, to as int) =~= word@);
    true
}

/// The positions in `chars` that hold `sep`, ascending.
pub fn cut_points(chars: &Vec<char>, sep: char) -> (cuts: Vec<usize>)
    ensures
        cuts@.map_values(|p: usize| p as int) == separators(chars@, sep, chars@.len() as int),
{
    let mut cuts: Vec<usize> = Vec::new();
    let mut i: usize = 0;
    while i < chars.len()
        invariant
            i <= chars.len(),
            cuts@.map_values(|p: usize| p as int) == separators(chars@, sep, i as int),
        decreases chars.len() - i,
    {
        let ghost before = cuts@;
        if chars[i] == sep {
            cuts.push(i);
            assert(cuts@.map_values(|p: usize| p as int) =~= before.map_values(
                |p: usize| p as int,
            ).push(i as int));
        }
        i += 1;
    }
    cuts
}

/// Reads the characters of `chars` from `from` up to `to` as a signed decimal
/// number of 32 bits.
pub fn parse_i32(chars: &Vec<char>, from: usize, to: usize) -> (value: Option<i32>)
    requires
        from <= to <= chars.len(),
    ensures
        match value {
            Some(v) => parse_int(chars@.subrange(from as int, to as int)) == Some(v as int),
            None => parse_int(chars@.subrange(from as int, to as int)).is_none(),
        },
{
    let ghost s = chars@.subrange(from as int, to as int);
    let ghost digits = unsigned_part(s);
    let mut start: usize = from;
    let mut negative: bool = false;
    if from < to && (chars[from] == '-' || chars[from] == '+') {
        negative = chars[from] == '-';
        start = from + 1;
        assert(digits =~= chars@.subrange(start as int, to as int));
    } else {
        assert(digits =~= chars@.subrange(start as int, to as int));
    }
    if start == to {
        return None;
    }
    let mut acc: i64 = 0;
    let mut i: usize = start;
    while i < to
        invariant
            from <= start <= i <= to <= chars.len(),
            start < to,
            digits == unsigned_part(chars@.subrange(from as int, to as int)),
            digits == chars@.subrange(start as int, to as int),
            all_digits(digits.take(i - start)),
            acc == digits_value(digits.take(i - start)),
            0 <= acc <= 2147483648,
        decreases to - i,
    {
        let c: char = chars[i];
        assert(digits[i - start] == c);
        if c < '0' || c > '9' {
            assert(!is_digit(digits[i - start]));
            return None;
        }
        let d: i64 = (c as u32 - 48) as i64;
        let next: i64 = acc * 10 + d;
        proof {
            let longer = digits.take(i - start + 1);
            assert(longer.drop_last() =~= digits.take(i - start));
            assert(longer.last() == c);
            assert(digits_value(longer) == next);
            assert forall|j: int| 0 <= j < longer.len() implies is_digit(#[trigger] longer[j]) by {
                if j < i - start {
                    assert(digits.take(i - start)[j] == longer[j]);
                }
            }
            if next > 2147483648 && all_digits(digits) {
                lemma_digits_value_prefix(digits, i - start + 1);
            }
        }
        if next > 2147483648 {
            return None;
        }
        acc = next;
        i += 1;
    }
    assert(digits.take(i - start) =~= digits);
    if negative {
        Some((-acc) as i32)
    } else if acc <= 2147483647 {
        Some(acc as i32)
    } else {
        None
    }
}

/// Reads `s` as a signed decimal number of 32 bits: an optional sign, then
/// digits, and nothing else.
pub fn parse_i32_str(s: &str) -> (value: Option<i32>)
    ensures
        match value {
            Some(v) => parse_int(s@) == Some(v as int),
            None => parse_int(s@).is_none(),
        },
{
    let chars = chars_of(s);
    assert(chars@.subrange(0, chars@.len() as int) =~= s@);
    parse_i32(&chars, 0, chars.len())
}

/// The text of one digit.
fn digit_str(d: u32) -> (s: &'static str)
    requires
        d < 10,
    ensures
        s@ == seq![digit_char(d as int)],
{
    proof {
        reveal_strlit("0");
        reveal_strlit("1");
        reveal_strlit("2");
        reveal_strlit("3");
        reveal_strlit("4");
        reveal_strlit("5");
        reveal_strlit("6");
        reveal_strlit("7");
        reveal_strlit("8");
        reveal_strlit("9");
    }
    let s: &'static str = if d == 0 {
        "0"
    } else if d == 1 {
        "1"
    } else if d == 2 {
        "2"
    } else if d == 3 {
        "3"
    } else if d == 4 {
        "4"
    } else if d == 5 {
        "5"
    } else if d == 6 {
        "6"
    } else if d == 7 {
        "7"
    } else if d == 8 {
        "8"
    } else {
        "9"
    };
    assert(s@ =~= seq![digit_char(d as int)]);
    s
}

/// Appends the decimal digits of `n` to `out`.
pub fn push_nat(out: &mut String, n: u32)
    ensures
        final(out)@ == old(out)@ + nat_text(n as nat),
    decreases n,
{
    if n >= 10 {
        push_nat(out, n / 10);
    }
    out.append(digit_str(n % 10));
    assert(out@ =~= old(out)@ + nat_text(n as nat));
}

/// Appends the decimal text of `v` to `out`.
pub fn push_i32(out: &mut String, v: i32)
    ensures
        final(out)@ == old(out)@ + int_text(v as int),
{
    if v < 0 {
        proof {
            reveal_strlit("-");
        }
        out.append("-");
        let magnitude: u32 = (-(v as i64)) as u32;
        push_nat(out, magnitude);
        assert(out@ =~= old(out)@ + int_text(v as int));
    } else {
        push_nat(out, v as u32);
    }
}

/// The decimal text of `v`.
pub fn i32_to_string(v: i32) -> (s: String)
    ensures
        s@ == int_text(v as int),
{
    let mut s = String::new();
    push_i32(&mut s, v);
    assert(s@ =~= int_text(v as int));
    s
}

/// Whether `a` and `b` are the same text.
pub fn same_text(a: &str, b: &str) -> (same: bool)
    ensures
        same == (a@ == b@),
{
    let chars = chars_of(a);
    assert(chars@.subrange(0, chars@.len() as int) =~= a@);
    field_is(&chars, 0, chars.len(), b)
}

} // verus!
