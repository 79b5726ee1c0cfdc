//! Character-level helpers shared by the parsers and formatters: decimal
//! numbers, ASCII case, splitting, and the UTF-8 width of a text.

use vstd::prelude::*;

verus! {

/// Appends one character to a `String` (`String::push`).
#[verifier::external_body]
pub(crate) fn push_char(s: &mut String, c: char)
    ensures
        final(s)@ == old(s)@.push(c),
{
    s.push(c);
}

/// The characters of a string slice, in order.
pub fn chars_of(s: &str) -> (r: Vec<char>)
    ensures
        r@ == s@,
{
    let mut r: Vec<char> = Vec::new();
    for c in it: s.chars()
        invariant
            it.seq() == s@,
            r@ == it.seq().take(it.index() as int),
    {
        r.push(c);
    }
    r
}

/// A `String` made of the given characters.
pub fn string_of(v: &Vec<char>) -> (r: String)
    ensures
        r@ == v@,
{
    let mut r = String::new();
    for i in 0..v.len()
        invariant
            r@ == v@.take(i as int),
    {
        push_char(&mut r, v[i]);
        assert(v@.take(i + 1) =~= v@.take(i as int).push(v@[i as int]));
    }
    assert(v@.take(v.len() as int) =~= v@);
    r
}

/// Appends all characters of `b` to `a`.
pub fn append_chars(a: &mut Vec<char>, b: &Vec<char>)
    ensures
        final(a)@ == old(a)@ + b@,
{
    for i in 0..b.len()
        invariant
            a@ == old(a)@ + b@.take(i as int),
    {
        a.push(b[i]);
        assert(b@.take(i + 1) =~= b@.take(i as int).push(b@[i as int]));
    }
    assert(b@.take(b.len() as int) =~= b@);
}

/// Appends the characters of a string slice to `a`.
pub fn append_str(a: &mut Vec<char>, s: &str)
    ensures
        final(a)@ == old(a)@ + s@,
{
    let v = chars_of(s);
    append_chars(a, &v);
}

/// Whether two character sequences are equal.
pub fn chars_eq(a: &Vec<char>, b: &Vec<char>) -> (r: bool)
    ensures
        r == (a@ == b@),
{
    if a.len() != b.len() {
        return false;
    }
    for i in 0..a.len()
        invariant
            a@.len() == b@.len(),
            forall|j: int| 0 <= j < i ==> a@[j] == b@[j],
    {
        if a[i] != b[i] {
            return false;
        }
    }
    assert(a@ =~= b@);
    true
}

/// Whether the characters of `a` spell the string slice `s`.
pub fn chars_eq_str(a: &Vec<char>, s: &str) -> (r: bool)
    ensures
        r == (a@ == s@),
{
    let b = chars_of(s);
    chars_eq(a, &b)
}

// ---------------------------------------------------------------- decimals
pub open spec fn is_digit(c: char) -> bool {
    '0' <= c && c <= '9'
}

pub open spec fn digit_value(c: char) -> nat {
    ((c as u32) - ('0' as u32)) as nat
}

pub open spec fn all_digits(s: Seq<char>) -> bool {
    forall|i: int| 0 <= i < s.len() ==> is_digit(#[trigger] s[i])
}

/// The number that a run of decimal digits denotes.
pub open spec fn digits_value(s: Seq<char>) -> nat
    decreases s.len(),
{
    if s.len() == 0 {
        0
    } else {
        digits_value(s.drop_last()) * 10 + digit_value(s.last())
    }
}

pub open spec fn digit_char(d: nat) -> char {
    if d == 0 {
        '0'
    } else if d == 1 {
        '1'
    } else if d == 2 {
        '2'
    } else if d == 3 {
        '3'
    } else if d == 4 {
        '4'
    } else if d == 5 {
        '5'
    } else if d == 6 {
        '6'
    } else if d == 7 {
        '7'
    } else if d == 8 {
        '8'
    } else {
        '9'
    }
}

/// The decimal notation of a natural number, without leading zeros.
pub open spec fn dec(n: nat) -> Seq<char>
    decreases n,
{
    if n < 10 {
        seq![digit_char(n)]
    } else {
        dec(n / 10).push(digit_char(n % 10))
    }
}

/// The decimal notation of an integer, with a leading `-` when negative.
pub open spec fn dec_int(i: int) -> Seq<char> {
    if i < 0 {
        seq!['-'] + dec((-i) as nat)
    } else {
        dec(i as nat)
    }
}

/// What `str::parse::<i64>` gives for the text `s`: an optional sign, then
/// at least one decimal digit, within the range of `i64`.
pub open spec fn parse_i64_spec(s: Seq<char>) -> Option<i64> {
    if s.len() > 0 && (s[0] == '+' || s[0] == '-') {
        let rest = s.skip(1);
        if rest.len() > 0 && all_digits(rest) {
            let v: int = if s[0] == '-' {
                -digits_value(rest)
            } else {
                digits_value(rest) as int
            };
            if i64::MIN <= v <= i64::MAX {
                Some(v as i64)
            } else {
                None
            }
        } else {
            None
        }
    } else if s.len() > 0 && all_digits(s) {
        if digits_value(s) <= i64::MAX {
            Some(digits_value(s) as i64)
        } else {
            None
        }
    } else {
        None
    }
}

pub proof fn lemma_digit_char(d: nat)
    requires
        d < 10,
    ensures
        is_digit(digit_char(d)),
        digit_value(digit_char(d)) == d,
{
}

pub proof fn lemma_dec_digits(n: nat)
    ensures
        dec(n).len() > 0,
        all_digits(dec(n)),
        digits_value(dec(n)) == n,
        dec(n)[0] != '-' && dec(n)[0] != '+',
    decreases n,
{
    lemma_digit_char(n % 10);
    if n < 10 {
        let d = dec(n);
        assert(d == seq![digit_char(n)]);
        assert(d.drop_last() =~= Seq::<char>::empty());
        assert(digits_value(d.drop_last()) == 0);
        assert(d.last() == digit_char(n));
        assert(digits_value(d) == digits_value(d.drop_last()) * 10 + digit_value(d.last()));
    } else {
        lemma_dec_digits(n / 10);
        let d = dec(n);
        assert(d.drop_last() =~= dec(n / 10));
        assert forall|i: int| 0 <= i < d.len() implies is_digit(#[trigger] d[i]) by {
            if i < d.len() - 1 {
                assert(d[i] == dec(n / 10)[i]);
            }
        }
        assert(d[0] == dec(n / 10)[0]);
        assert(d.last() == digit_char(n % 10));
        assert(digits_value(d) == digits_value(dec(n / 10)) * 10 + digit_value(d.last()));
        assert(n == (n / 10) * 10 + n % 10);
    }
}

/// Parsing the decimal notation of a number gives the number back.
pub proof fn lemma_parse_dec(n: nat)
    requires
        n <= i64::MAX,
    ensures
        parse_i64_spec(dec(n)) == Some(n as i64),
{
    lemma_dec_digits(n);
}

pub proof fn lemma_digits_value_take(s: Seq<char>, i: int)
    requires
        0 <= i < s.len(),
    ensures
        digits_value(s.take(i + 1)) == digits_value(s.take(i)) * 10 + digit_value(s[i]),
{
    assert(s.take(i + 1).drop_last() =~= s.take(i));
}

fn digit_to_char(d: u64) -> (c: char)
    requires
        d < 10,
    ensures
        c == digit_char(d as nat),
{
    if d == 0 {
        '0'
    } else if d == 1 {
        '1'
    } else if d == 2 {
        '2'
    } else if d == 3 {
        '3'
    } else if d == 4 {
        '4'
    } else if d == 5 {
        '5'
    } else if d == 6 {
        '6'
    } else if d == 7 {
        '7'
    } else if d == 8 {
        '8'
    } else {
        '9'
    }
}

/// The decimal notation of `n`.
pub fn decimal_u64(n: u64) -> (r: Vec<char>)
    ensures
        r@ == dec(n as nat),
    decreases n,
{
    if n < 10 {
        let mut r = Vec::new();
        r.push(digit_to_char(n));
        assert(r@ =~= seq![digit_char(n as nat)]);
        r
    } else {
        let mut r = decimal_u64(n / 10);
        r.push(digit_to_char(n % 10));
        r
    }
}

/// The decimal notation of `n`.
pub fn decimal_u128(n: u128) -> (r: Vec<char>)
    ensures
        r@ == dec(n as nat),
    decreases n,
{
    if n < 10 {
        let mut r = Vec::new();
        r.push(digit_to_char(n as u64));
        assert(r@ =~= seq![digit_char(n as nat)]);
        r
    } else {
        let mut r = decimal_u128(n / 10);
        r.push(digit_to_char((n % 10) as u64));
        r
    }
}

/// The decimal notation of `n`, with a leading `-` when negative.
pub fn decimal_i64(n: i64) -> (r: Vec<char>)
    ensures
        r@ == dec_int(n as int),
{
    if n < 0 {
        let m: u64 = if n == i64::MIN {
            9223372036854775808u64
        } else {
            (-n) as u64
        };
        let mut r = Vec::new();
        r.push('-');
        let d = decimal_u64(m);
        append_chars(&mut r, &d);
        assert(r@ =~= seq!['-'] + dec((-(n as int)) as nat));
        r
    } else {
        decimal_u64(n as u64)
    }
}

/// Whether every character of `s` is a decimal digit.
pub fn is_all_digits(s: &Vec<char>) -> (r: bool)
    ensures
        r == all_digits(s@),
{
    for i in 0..s.len()
        invariant
            forall|j: int| 0 <= j < i ==> is_digit(#[trigger] s@[j]),
    {
        if !(s[i] >= '0' && s[i] <= '9') {
            return false;
        }
    }
    true
}

/// The value of the digits `s[from..]`, when it is at most `bound`.
fn digits_upto(s: &Vec<char>, from: usize, bound: u64) -> (r: Option<u64>)
    requires
        from <= s.len(),
        all_digits(s@.skip(from as int)),
        9 <= bound <= i64::MAX + 1,
    ensures
        r == (if digits_value(s@.skip(from as int)) <= bound {
            Some(digits_value(s@.skip(from as int)) as u64)
        } else {
            None
        }),
{
    let ghost t = s@.skip(from as int);
    let mut acc: u64 = 0;
    let mut i: usize = from;
    while i < s.len()
        invariant
            from <= i <= s.len(),
            t == s@.skip(from as int),
            all_digits(t),
            9 <= bound <= i64::MAX + 1,
            acc == digits_value(t.take(i - from)),
            acc <= bound,
        decreases s.len() - i,
    {
        proof {
            lemma_digits_value_take(t, (i - from) as int);
            assert(is_digit(t[(i - from) as int]));
        }
        let d = (s[i] as u32 - '0' as u32) as u64;
        assert(d == digit_value(t[(i - from) as int]));
        if acc > (bound - d) / 10 {
            proof {
                assert(acc * 10 + d > bound) by (nonlinear_arith)
                    requires acc > (bound - d) / 10, d <= 9, d <= bound || acc * 10 + d > bound;
                lemma_digits_value_monotone(t, (i - from + 1) as int);
            }
            return None;
        }
        proof {
            assert(acc * 10 + d <= bound) by (nonlinear_arith)
                requires acc <= (bound - d) / 10, d <= bound;
        }
        acc = acc * 10 + d;
        i = i + 1;
    }
    assert(t.take(t.len() as int) =~= t);
    Some(acc)
}

/// A longer run of digits is worth at least as much as its prefix.
pub proof fn lemma_digits_value_monotone(s: Seq<char>, k: int)
    requires
        0 <= k <= s.len(),
    ensures
        digits_value(s.take(k)) <= digits_value(s),
    decreases s.len() - k,
{
    if k < s.len() {
        lemma_digits_value_monotone(s, k + 1);
        lemma_digits_value_take(s, k);
    } else {
        assert(s.take(k) =~= s);
    }
}

/// `str::parse::<i64>` on the text `s`.
pub fn parse_i64(s: &Vec<char>) -> (r: Option<i64>)
    ensures
        r == parse_i64_spec(s@),
{
    if s.len() == 0 {
        return None;
    }
    if s[0] == '+' || s[0] == '-' {
        if s.len() == 1 {
            assert(s@.skip(1).len() == 0);
            return None;
        }
        let mut all = true;
        for i in 1..s.len()
            invariant
                all == forall|j: int| 1 <= j < i ==> is_digit(#[trigger] s@[j]),
        {
            if !(s[i] >= '0' && s[i] <= '9') {
                all = false;
            }
        }
        proof {
            assert(all == all_digits(s@.skip(1))) by {
                if all {
                    assert forall|j: int| 0 <= j < s@.skip(1).len() implies is_digit(
                        #[trigger] s@.skip(1)[j],
                    ) by {
                        assert(s@.skip(1)[j] == s@[j + 1]);
                    }
                } else {
                    let j = choose|j: int| 1 <= j < s.len() && !is_digit(#[trigger] s@[j]);
                    assert(s@.skip(1)[j - 1] == s@[j]);
                }
            }
        }
        if !all {
            return None;
        }
        if s[0] == '-' {
            match digits_upto(s, 1, 9223372036854775808u64) {
                Some(v) => {
                    if v == 9223372036854775808u64 {
                        Some(i64::MIN)
                    } else {
                        Some(-(v as i64))
                    }
                },
                None => None,
            }
        } else {
            match digits_upto(s, 1, 9223372036854775807u64) {
                Some(v) => Some(v as i64),
                None => None,
            }
        }
    } else {
        if !is_all_digits(s) {
            return None;
        }
        assert(s@.skip(0) =~= s@);
        match digits_upto(s, 0, 9223372036854775807u64) {
            Some(v) => Some(v as i64),
            None => None,
        }
    }
}

// ------------------------------------------------------------- splitting
/// The pieces of `s` between the separators (`str::split`); an empty text
/// is one empty piece.
pub open spec fn split_on(s: Seq<char>, sep: char) -> Seq<Seq<char>>
    decreases s.len(),
{
    if s.len() == 0 {
        seq![seq![]]
    } else {
        let rest = split_on(s.drop_last(), sep);
        if s.last() == sep {
            rest.push(seq![])
        } else {
            rest.update(rest.len() - 1, rest.last().push(s.last()))
        }
    }
}

pub proof fn lemma_split_nonempty(s: Seq<char>, sep: char)
    ensures
        split_on(s, sep).len() >= 1,
    decreases s.len(),
{
    if s.len() > 0 {
        lemma_split_nonempty(s.drop_last(), sep);
    }
}

pub open spec fn pieces_view(v: Seq<Vec<char>>) -> Seq<Seq<char>> {
    v.map_values(|p: Vec<char>| p@)
}

/// `str::split` on one character.
pub fn split_chars(s: &Vec<char>, sep: char) -> (r: Vec<Vec<char>>)
    ensures
        pieces_view(r@) == split_on(s@, sep),
{
    let mut done: Vec<Vec<char>> = Vec::new();
    let mut cur: Vec<char> = Vec::new();
    for i in 0..s.len()
        invariant
            pieces_view(done@).push(cur@) == split_on(s@.take(i as int), sep),
    {
        proof {
            assert(s@.take(i + 1).drop_last() =~= s@.take(i as int));
            lemma_split_nonempty(s@.take(i as int), sep);
        }
        let ghost before = pieces_view(done@).push(cur@);
        if s[i] == sep {
            let finished = cur;
            done.push(finished);
            cur = Vec::new();
            assert(pieces_view(done@).push(cur@) =~= before.push(seq![]));
        } else {
            cur.push(s[i]);
            assert(pieces_view(done@).push(cur@) =~= before.update(
                before.len() - 1,
                before.last().push(s@[i as int]),
            ));
        }
    }
    assert(s@.take(s.len() as int) =~= s@);
    done.push(cur);
    assert(pieces_view(done@) =~= split_on(s@, sep));
    done
}

/// The index of the first occurrence of `c` in `s`.
pub open spec fn find_char(s: Seq<char>, c: char) -> Option<int>
    decreases s.len(),
{
    if s.len() == 0 {
        None
    } else {
        match find_char(s.drop_last(), c) {
            Some(i) => Some(i),
            None => if s.last() == c {
                Some(s.len() - 1)
            } else {
                None
            },
        }
    }
}

pub proof fn lemma_find_char(s: Seq<char>, c: char)
    ensures
        match find_char(s, c) {
            Some(i) => 0 <= i < s.len() && s[i] == c && forall|j: int|
                0 <= j < i ==> #[trigger] s[j] != c,
            None => forall|j: int| 0 <= j < s.len() ==> #[trigger] s[j] != c,
        },
    decreases s.len(),
{
    if s.len() > 0 {
        lemma_find_char(s.drop_last(), c);
        assert forall|j: int| 0 <= j < s.len() - 1 implies s.drop_last()[j] == #[trigger] s[j] by {}
    }
}

/// The index of the first occurrence of `c` in `s`.
pub fn find_first(s: &Vec<char>, c: char) -> (r: Option<usize>)
    ensures
        match find_char(s@, c) {
            Some(i) => r == Some(i as usize) && 0 <= i < s@.len() && s@[i] == c,
            None => r is None,
        },
{
    proof {
        lemma_find_char(s@, c);
    }
    for i in 0..s.len()
        invariant
            forall|j: int| 0 <= j < i ==> #[trigger] s@[j] != c,
            match find_char(s@, c) {
                Some(k) => 0 <= k < s@.len() && s@[k] == c && forall|j: int|
                    0 <= j < k ==> #[trigger] s@[j] != c,
                None => forall|j: int| 0 <= j < s@.len() ==> #[trigger] s@[j] != c,
            },
    {
        if s[i] == c {
            return Some(i);
        }
    }
    None
}

/// The characters `s[from..to]`.
pub fn slice_chars(s: &Vec<char>, from: usize, to: usize) -> (r: Vec<char>)
    requires
        from <= to <= s.len(),
    ensures
        r@ == s@.subrange(from as int, to as int),
{
    let mut r: Vec<char> = Vec::new();
    for i in from..to
        invariant
            to <= s.len(),
            r@ =~= s@.subrange(from as int, i as int),
    {
        r.push(s[i]);
    }
    r
}

// -------------------------------------------------------------- ASCII case
pub open spec fn ascii_lower(c: char) -> char {
    if 'A' <= c && c <= 'Z' {
        ((c as u32) + 32) as char
    } else {
        c
    }
}

pub open spec fn ascii_upper(c: char) -> char {
    if 'a' <= c && c <= 'z' {
        ((c as u32) - 32) as char
    } else {
        c
    }
}

/// `str::eq_ignore_ascii_case`: equal once ASCII letters are folded.
pub open spec fn eq_ignore_ascii_case_spec(a: Seq<char>, b: Seq<char>) -> bool {
    a.len() == b.len() && forall|i: int| 0 <= i < a.len() ==> ascii_lower(#[trigger] a[i])
        == ascii_lower(b[i])
}

pub open spec fn upper_seq(s: Seq<char>) -> Seq<char> {
    Seq::new(s.len(), |i: int| ascii_upper(s[i]))
}

fn lower_char(c: char) -> (r: char)
    ensures
        r == ascii_lower(c),
{
    if c >= 'A' && c <= 'Z' {
        proof {
            vstd::utf8::char_u32_cast(c, c as u32);
        }
        let u = (c as u32) + 32;
        char_from_ascii(u)
    } else {
        c
    }
}

fn upper_char(c: char) -> (r: char)
    ensures
        r == ascii_upper(c),
{
    if c >= 'a' && c <= 'z' {
        let u = (c as u32) - 32;
        char_from_ascii(u)
    } else {
        c
    }
}

/// The character with the given ASCII code.
fn char_from_ascii(u: u32) -> (c: char)
    requires
        u < 128,
    ensures
        c == u as char,
{
    (u as u8) as char
}

/// `str::eq_ignore_ascii_case`.
pub fn eq_ignore_ascii_case(a: &Vec<char>, b: &Vec<char>) -> (r: bool)
    ensures
        r == eq_ignore_ascii_case_spec(a@, b@),
{
    if a.len() != b.len() {
        return false;
    }
    for i in 0..a.len()
        invariant
            a@.len() == b@.len(),
            forall|j: int| 0 <= j < i ==> ascii_lower(#[trigger] a@[j]) == ascii_lower(b@[j]),
    {
        if lower_char(a[i]) != lower_char(b[i]) {
            return false;
        }
    }
    true
}

/// `str::to_ascii_uppercase`.
pub fn to_ascii_uppercase(s: &Vec<char>) -> (r: Vec<char>)
    ensures
        r@ == upper_seq(s@),
{
    let mut r: Vec<char> = Vec::new();
    for i in 0..s.len()
        invariant
            r@ =~= upper_seq(s@.take(i as int)),
    {
        r.push(upper_char(s[i]));
    }
    assert(s@.take(s.len() as int) =~= s@);
    r
}

// ------------------------------------------------------------------- UTF-8
/// How many bytes the UTF-8 encoding of `c` takes.
pub open spec fn utf8_width(c: char) -> nat {
    if (c as u32) < 0x80 {
        1
    } else if (c as u32) < 0x800 {
        2
    } else if (c as u32) < 0x10000 {
        3
    } else {
        4
    }
}

/// How many bytes the UTF-8 encoding of `s` takes (what `str::len` gives).
pub open spec fn byte_len(s: Seq<char>) -> nat
    decreases s.len(),
{
    if s.len() == 0 {
        0
    } else {
        byte_len(s.drop_last()) + utf8_width(s.last())
    }
}

/// Every character takes at least one byte.
pub proof fn lemma_byte_len_at_least_len(s: Seq<char>)
    ensures
        byte_len(s) >= s.len(),
    decreases s.len(),
{
    if s.len() > 0 {
        lemma_byte_len_at_least_len(s.drop_last());
    }
}

/// Whether byte offset `n` of the UTF-8 encoding of `s` starts a character.
pub open spec fn is_boundary_at(s: Seq<char>, n: nat) -> bool {
    exists|k: int| 0 <= k <= s.len() && byte_len(#[trigger] s.take(k)) == n
}

pub proof fn lemma_byte_len_take(s: Seq<char>, i: int)
    requires
        0 <= i < s.len(),
    ensures
        byte_len(s.take(i + 1)) == byte_len(s.take(i)) + utf8_width(s[i]),
{
    assert(s.take(i + 1).drop_last() =~= s.take(i));
}

/// Whether the UTF-8 encoding of `s[from..]` takes exactly `n` bytes.
pub fn byte_len_is(s: &Vec<char>, from: usize, n: u64) -> (r: bool)
    requires
        from <= s.len(),
    ensures
        r == (byte_len(s@.skip(from as int)) == n),
{
    let ghost t = s@.skip(from as int);
    let mut acc: u64 = 0;
    let mut i: usize = from;
    while i < s.len()
        invariant
            from <= i <= s.len(),
            t == s@.skip(from as int),
            acc == byte_len(t.take(i - from)),
            acc <= n,
        decreases s.len() - i,
    {
        proof {
            lemma_byte_len_take(t, (i - from) as int);
            assert(t[(i - from) as int] == s@[i as int]);
        }
        let c = s[i] as u32;
        let w: u64 = if c < 0x80 {
            1
        } else if c < 0x800 {
            2
        } else if c < 0x10000 {
            3
        } else {
            4
        };
        if w > n - acc {
            proof {
                lemma_byte_len_monotone(t, (i - from + 1) as int);
            }
            return false;
        }
        acc = acc + w;
        i = i + 1;
    }
    assert(t.take(t.len() as int) =~= t);
    acc == n
}

/// Whether byte offset `n` of the UTF-8 encoding of `s[from..]` starts a
/// character.
pub fn boundary_at(s: &Vec<char>, from: usize, n: u64) -> (r: bool)
    requires
        from <= s.len(),
    ensures
        r == is_boundary_at(s@.skip(from as int), n as nat),
{
    let ghost t = s@.skip(from as int);
    let mut acc: u64 = 0;
    let mut i: usize = from;
    loop
        invariant
            from <= i <= s.len(),
            t == s@.skip(from as int),
            acc == byte_len(t.take(i - from)),
            acc <= n,
            forall|k: int| 0 <= k < i - from ==> byte_len(#[trigger] t.take(k)) != n,
        decreases s.len() - i,
    {
        if acc == n {
            assert(0 <= i - from <= t.len() && byte_len(t.take(i - from)) == n);
            return true;
        }
        if i == s.len() {
            return false;
        }
        proof {
            lemma_byte_len_take(t, (i - from) as int);
            assert(t[(i - from) as int] == s@[i as int]);
        }
        let c = s[i] as u32;
        let w: u64 = if c < 0x80 {
            1
        } else if c < 0x800 {
            2
        } else if c < 0x10000 {
            3
        } else {
            4
        };
        if w > n - acc {
            proof {
                let j = (i - from + 1) as int;
                assert forall|k: int| j <= k <= t.len() implies byte_len(#[trigger] t.take(k)) != n by {
                    lemma_byte_len_monotone(t.take(k), j);
                    assert(t.take(k).take(j) =~= t.take(j));
                }
            }
            return false;
        }
        acc = acc + w;
        i = i + 1;
    }
}

/// A text's encoding is at least as long as that of any of its prefixes.
pub proof fn lemma_byte_len_monotone(s: Seq<char>, k: int)
    requires
        0 <= k <= s.len(),
    ensures
        byte_len(s.take(k)) <= byte_len(s),
    decreases s.len() - k,
{
    if k < s.len() {
        lemma_byte_len_monotone(s, k + 1);
        lemma_byte_len_take(s, k);
    } else {
        assert(s.take(k) =~= s);
    }
}

/// An ASCII text takes one byte per character.
pub proof fn lemma_byte_len_ascii(s: Seq<char>)
    requires
        forall|i: int| 0 <= i < s.len() ==> (#[trigger] s[i] as u32) < 0x80,
    ensures
        byte_len(s) == s.len(),
    decreases s.len(),
{
    if s.len() > 0 {
        lemma_byte_len_ascii(s.drop_last());
    }
}

/// Whether `pat` occurs in `s` as a run of consecutive characters (what
/// `str::contains` with a string pattern answers).
pub open spec fn contains_text(s: Seq<char>, pat: Seq<char>) -> bool {
    exists|i: int| 0 <= i && i + pat.len() <= s.len() && #[trigger] s.subrange(i, i + pat.len()) == pat
}

fn matches_at(s: &Vec<char>, pat: &Vec<char>, at: usize) -> (r: bool)
    requires
        at + pat.len() <= s.len(),
    ensures
        r == (s@.subrange(at as int, at + pat.len()) == pat@),
{
    for k in 0..pat.len()
        invariant
            at + pat.len() <= s.len(),
            forall|j: int| 0 <= j < k ==> s@[at + j] == pat@[j],
    {
        if s[at + k] != pat[k] {
            assert(s@.subrange(at as int, at + pat.len())[k as int] != pat@[k as int]);
            return false;
        }
    }
    assert(s@.subrange(at as int, at + pat.len()) =~= pat@);
    true
}

/// Whether `pat` occurs in `s`.
pub fn text_contains(s: &Vec<char>, pat: &Vec<char>) -> (r: bool)
    ensures
        r == contains_text(s@, pat@),
{
    if pat.len() > s.len() {
        return false;
    }
    let last = s.len() - pat.len();
    let mut i: usize = 0;
    loop
        invariant
            i <= last,
            last + pat.len() == s.len(),
            forall|j: int| 0 <= j < i ==> #[trigger] s@.subrange(j, j + pat.len()) != pat@,
        decreases last - i,
    {
        if matches_at(s, pat, i) {
            return true;
        }
        if i == last {
            return false;
        }
        i = i + 1;
    }
}

} // verus!
