//! Text building: decimal and hexadecimal rendering, concatenation, words and
//! unsigned numbers in a sequence of characters.
use vstd::prelude::*;

verus! {

/// `String::push` appends one character.
pub assume_specification[ String::push ](s: &mut String, c: char)
    ensures
        final(s)@ == old(s)@.push(c),
;

/// The decimal digit of `d`.
pub open spec fn digit_char(d: nat) -> char {
    (48 + d) as char
}

/// Decimal rendering of `n`, without leading zeros.
pub open spec fn decimal_chars(n: nat) -> Seq<char>
    decreases n,
{
    if n < 10 {
        seq![digit_char(n)]
    } else {
        decimal_chars(n / 10).push(digit_char(n % 10))
    }
}

/// Lower-case hexadecimal digit of `d`.
pub open spec fn hex_char(d: nat) -> char {
    if d < 10 {
        (48 + d) as char
    } else {
        (87 + d) as char
    }
}

/// Concatenation of the pieces, in order.
pub open spec fn concat_chars(parts: Seq<Seq<char>>) -> Seq<char>
    decreases parts.len(),
{
    if parts.len() == 0 {
        Seq::empty()
    } else {
        concat_chars(parts.drop_last()) + parts.last()
    }
}

/// Decimal rendering of `n`.
pub fn decimal(n: u64) -> (s: String)
    ensures
        s@ == decimal_chars(n as nat),
    decreases n,
{
    let mut s: String = if n < 10 {
        String::new()
    } else {
        decimal(n / 10)
    };
    s.push((48u8 + (n % 10) as u8) as char);
    s
}

/// One hexadecimal digit.
pub fn hex_digit(d: u8) -> (c: char)
    requires
        d < 16,
    ensures
        c == hex_char(d as nat),
{
    if d < 10 {
        (48u8 + d) as char
    } else {
        (87u8 + d) as char
    }
}

/// The pieces joined without a separator.
pub fn concat(parts: &[&str]) -> (s: String)
    ensures
        s@ == concat_chars(Seq::new(parts@.len(), |i: int| parts@[i]@)),
{
    let mut s: String = String::new();
    let ghost all: Seq<Seq<char>> = Seq::new(parts@.len(), |i: int| parts@[i]@);
    for i in 0..parts.len()
        invariant
            all == Seq::new(parts@.len(), |i: int| parts@[i]@),
            s@ == concat_chars(all.take(i as int)),
    {
        s.append(parts[i]);
        proof {
            assert(all.take(i as int + 1).drop_last() =~= all.take(i as int));
        }
    }
    proof {
        assert(all.take(parts@.len() as int) =~= all);
    }
    s
}

/// A text of its own.
pub fn text1(a: &str) -> (s: String)
    ensures
        s@ == a@,
{
    let s: String = concat(&[a]);
    proof {
        reveal_with_fuel(concat_chars, 2);
        assert(s@ =~= a@);
    }
    s
}

/// Two texts joined.
pub fn text2(a: &str, b: &str) -> (s: String)
    ensures
        s@ == a@ + b@,
{
    let s: String = concat(&[a, b]);
    proof {
        reveal_with_fuel(concat_chars, 3);
        assert(s@ =~= a@ + b@);
    }
    s
}

/// Three texts joined.
pub fn text3(a: &str, b: &str, c: &str) -> (s: String)
    ensures
        s@ == a@ + b@ + c@,
{
    let s: String = concat(&[a, b, c]);
    proof {
        reveal_with_fuel(concat_chars, 4);
        assert(s@ =~= a@ + b@ + c@);
    }
    s
}

/// Four texts joined.
pub fn text4(a: &str, b: &str, c: &str, d: &str) -> (s: String)
    ensures
        s@ == a@ + b@ + c@ + d@,
{
    let s: String = concat(&[a, b, c, d]);
    proof {
        reveal_with_fuel(concat_chars, 5);
        assert(s@ =~= a@ + b@ + c@ + d@);
    }
    s
}

/// Five texts joined.
pub fn text5(a: &str, b: &str, c: &str, d: &str, e: &str) -> (s: String)
    ensures
        s@ == a@ + b@ + c@ + d@ + e@,
{
    let s: String = concat(&[a, b, c, d, e]);
    proof {
        reveal_with_fuel(concat_chars, 6);
        assert(s@ =~= a@ + b@ + c@ + d@ + e@);
    }
    s
}

/// Six texts joined.
pub fn text6(a: &str, b: &str, c: &str, d: &str, e: &str, f: &str) -> (s: String)
    ensures
        s@ == a@ + b@ + c@ + d@ + e@ + f@,
{
    let s: String = concat(&[a, b, c, d, e, f]);
    proof {
        reveal_with_fuel(concat_chars, 7);
        assert(s@ =~= a@ + b@ + c@ + d@ + e@ + f@);
    }
    s
}

/// Seven texts joined.
pub fn text7(a: &str, b: &str, c: &str, d: &str, e: &str, f: &str, g: &str) -> (s: String)
    ensures
        s@ == a@ + b@ + c@ + d@ + e@ + f@ + g@,
{
    let s: String = concat(&[a, b, c, d, e, f, g]);
    proof {
        reveal_with_fuel(concat_chars, 8);
        assert(s@ =~= a@ + b@ + c@ + d@ + e@ + f@ + g@);
    }
    s
}

/// The characters of `s`.
pub fn chars_of(s: &str) -> (v: Vec<char>)
    ensures
        v@ == s@,
{
    let mut v: Vec<char> = Vec::new();
    for c in iter: s.chars()
        invariant
            v@ == s@.take(iter.index() as int),
            iter.seq() == s@,
    {
        v.push(c);
    }
    v
}

/// Whether two texts are the same.
pub fn same_text(a: &str, b: &str) -> (r: bool)
    ensures
        r == (a@ == b@),
{
    let x: Vec<char> = chars_of(a);
    let y: Vec<char> = chars_of(b);
    if x.len() != y.len() {
        return false;
    }
    for i in 0..x.len()
        invariant
            x@.len() == y@.len(),
            x@ == a@,
            y@ == b@,
            forall|j: int| 0 <= j < i ==> x@[j] == y@[j],
    {
        if x[i] != y[i] {
            return false;
        }
    }
    proof {
        assert(a@ =~= b@);
    }
    true
}

/// Unicode `White_Space`.
pub open spec fn is_white(c: char) -> bool {
    let u = c as u32;
    ||| 0x09 <= u <= 0x0d
    ||| u == 0x20
    ||| u == 0x85
    ||| u == 0xa0
    ||| u == 0x1680
    ||| 0x2000 <= u <= 0x200a
    ||| u == 0x2028
    ||| u == 0x2029
    ||| u == 0x202f
    ||| u == 0x205f
    ||| u == 0x3000
}

/// Whether `c` is Unicode white space.
pub fn white(c: char) -> (r: bool)
    ensures
        r == is_white(c),
{
    let u: u32 = c as u32;
    (0x09 <= u && u <= 0x0d) || u == 0x20 || u == 0x85 || u == 0xa0 || u == 0x1680 || (0x2000 <= u
        && u <= 0x200a) || u == 0x2028 || u == 0x2029 || u == 0x202f || u == 0x205f || u == 0x3000
}

/// Index of the first non-white character at or after `i`.
pub open spec fn skip_white(s: Seq<char>, i: int) -> int
    decreases s.len() - i,
{
    if 0 <= i < s.len() && is_white(s[i]) {
        skip_white(s, i + 1)
    } else {
        i
    }
}

/// Index of the first white character at or after `i`.
pub open spec fn skip_word(s: Seq<char>, i: int) -> int
    decreases s.len() - i,
{
    if 0 <= i < s.len() && !is_white(s[i]) {
        skip_word(s, i + 1)
    } else {
        i
    }
}

/// The words of `s` from `i` on: its maximal runs of non-white characters.
pub open spec fn words_from(s: Seq<char>, i: int, acc: Seq<Seq<char>>) -> Seq<Seq<char>>
    decreases s.len() - i,
{
    let a = skip_white(s, i);
    let b = skip_word(s, a);
    if 0 <= i <= a < b <= s.len() {
        words_from(s, b, acc.push(s.subrange(a, b)))
    } else {
        acc
    }
}

/// The words of `s`.
pub open spec fn words(s: Seq<char>) -> Seq<Seq<char>> {
    words_from(s, 0, Seq::empty())
}

proof fn lemma_skip(s: Seq<char>, i: int)
    requires
        0 <= i <= s.len(),
    ensures
        i <= skip_white(s, i) <= s.len(),
        skip_white(s, i) < s.len() ==> !is_white(s[skip_white(s, i)]),
        i <= skip_word(s, i) <= s.len(),
        i < s.len() && !is_white(s[i]) ==> skip_word(s, i) > i,
    decreases s.len() - i,
{
    if i < s.len() {
        lemma_skip(s, i + 1);
    }
}

/// Splits `s` at white space.
pub fn split_words(s: &Vec<char>) -> (w: Vec<Vec<char>>)
    ensures
        w.deep_view() == words(s@),
{
    let mut w: Vec<Vec<char>> = Vec::new();
    let mut i: usize = 0;
    proof {
        assert(w.deep_view() =~= Seq::empty());
    }
    while i < s.len()
        invariant
            i <= s@.len(),
            words(s@) == words_from(s@, i as int, w.deep_view()),
        ensures
            w.deep_view() == words(s@),
        decreases s@.len() - i,
    {
        let ghost i0: int = i as int;
        proof {
            lemma_skip(s@, i0);
            lemma_skip(s@, skip_white(s@, i0));
        }
        while i < s.len() && white(s[i])
            invariant
                i0 <= i <= s@.len(),
                skip_white(s@, i0) == skip_white(s@, i as int),
            decreases s@.len() - i,
        {
            i = i + 1;
        }
        if i == s.len() {
            break;
        }
        let a: usize = i;
        let mut word: Vec<char> = Vec::new();
        while i < s.len() && !white(s[i])
            invariant
                a <= i <= s@.len(),
                a < s@.len(),
                skip_word(s@, a as int) == skip_word(s@, i as int),
                word@ == s@.subrange(a as int, i as int),
            decreases s@.len() - i,
        {
            word.push(s[i]);
            i = i + 1;
        }
        let ghost before = w.deep_view();
        w.push(word);
        proof {
            assert(word.deep_view() =~= word@);
            assert(w.deep_view() =~= before.push(s@.subrange(a as int, i as int)));
        }
    }
    w
}

/// Whether `c` is an ASCII decimal digit.
pub open spec fn is_digit(c: char) -> bool {
    48 <= c as u32 <= 57
}

/// Whether `s` holds ASCII decimal digits only.
pub open spec fn all_digits(s: Seq<char>) -> bool {
    forall|i: int| 0 <= i < s.len() ==> is_digit(#[trigger] s[i])
}

/// Value of a run of decimal digits.
pub open spec fn digits_value(s: Seq<char>) -> nat
    decreases s.len(),
{
    if s.len() == 0 {
        0
    } else {
        digits_value(s.drop_last()) * 10 + ((s.last() as u32 - 48) as nat)
    }
}

/// The unsigned number `s` spells in decimal, `None` when it spells none or
/// one above `max`. A leading plus sign is accepted.
pub open spec fn number(s: Seq<char>, max: nat) -> Option<nat> {
    let d = if s.len() > 0 && s[0] == '+' {
        s.subrange(1, s.len() as int)
    } else {
        s
    };
    if d.len() > 0 && all_digits(d) && digits_value(d) <= max {
        Some(digits_value(d))
    } else {
        None
    }
}

proof fn lemma_digits_grow(s: Seq<char>, i: int)
    requires
        0 <= i <= s.len(),
    ensures
        digits_value(s.take(i)) <= digits_value(s),
    decreases s.len(),
{
    if i < s.len() {
        lemma_digits_grow(s.drop_last(), i);
        assert(s.drop_last().take(i) =~= s.take(i));
    } else {
        assert(s.take(i) =~= s);
    }
}

/// Reads an unsigned decimal number of at most `max`.
pub fn parse_number(s: &Vec<char>, max: u64) -> (r: Option<u64>)
    ensures
        match r {
            Some(v) => number(s@, max as nat) == Some(v as nat),
            None => number(s@, max as nat) is None,
        },
{
    let start: usize = if s.len() > 0 && s[0] == '+' {
        1
    } else {
        0
    };
    let ghost d: Seq<char> = s@.subrange(start as int, s@.len() as int);
    proof {
        if start == 0 {
            assert(d =~= s@);
        }
    }
    if start == s.len() {
        return None;
    }
    let mut v: u64 = 0;
    let mut i: usize = start;
    while i < s.len()
        invariant
            start <= i <= s@.len(),
            d == s@.subrange(start as int, s@.len() as int),
            v == digits_value(d.take(i - start)),
            v <= max,
            d == (if s@.len() > 0 && s@[0] == '+' {
                s@.subrange(1, s@.len() as int)
            } else {
                s@
            }),
            forall|j: int| 0 <= j < i - start ==> is_digit(#[trigger] d[j]),
        decreases s@.len() - i,
    {
        let c: u32 = s[i] as u32;
        let ghost k: int = i - start;
        assert(s@[i as int] == d[k]);
        if c < 48 || c > 57 {
            assert(!is_digit(d[k]));
            return None;
        }
        let x: u64 = (c - 48) as u64;
        proof {
            assert(d.take(k + 1).drop_last() =~= d.take(k));
            lemma_digits_grow(d, k + 1);
        }
        if x > max || v > (max - x) / 10 {
            return None;
        }
        v = v * 10 + x;
        i = i + 1;
    }
    proof {
        assert(d.take(d.len() as int) =~= d);
    }
    Some(v)
}

/// A run of white characters ends where the first other one stands.
proof fn lemma_skip_white_to(s: Seq<char>, i: int, a: int)
    requires
        0 <= i <= a <= s.len(),
        forall|k: int| i <= k < a ==> is_white(#[trigger] s[k]),
        a < s.len() ==> !is_white(s[a]),
    ensures
        skip_white(s, i) == a,
    decreases a - i,
{
    if i < a {
        lemma_skip_white_to(s, i + 1, a);
    }
}

/// A word ends where the first white character stands.
proof fn lemma_skip_word_to(s: Seq<char>, a: int, b: int)
    requires
        0 <= a <= b <= s.len(),
        forall|k: int| a <= k < b ==> !is_white(#[trigger] s[k]),
        b < s.len() ==> is_white(s[b]),
    ensures
        skip_word(s, a) == b,
    decreases b - a,
{
    if a < b {
        lemma_skip_word_to(s, a + 1, b);
    }
}

/// The next word of a text: `s[a..b]`, behind the white characters `s[i..a]`.
pub(crate) proof fn lemma_next_word(s: Seq<char>, i: int, a: int, b: int, acc: Seq<Seq<char>>)
    requires
        0 <= i <= a < b <= s.len(),
        forall|k: int| i <= k < a ==> is_white(#[trigger] s[k]),
        forall|k: int| a <= k < b ==> !is_white(#[trigger] s[k]),
        b < s.len() ==> is_white(s[b]),
    ensures
        words_from(s, i, acc) == words_from(s, b, acc.push(s.subrange(a, b))),
{
    lemma_skip_white_to(s, i, a);
    lemma_skip_word_to(s, a, b);
}

/// The words found before stay first.
pub(crate) proof fn lemma_words_stay(s: Seq<char>, i: int, acc: Seq<Seq<char>>)
    ensures
        acc.is_prefix_of(words_from(s, i, acc)),
    decreases s.len() - i,
{
    let a = skip_white(s, i);
    let b = skip_word(s, a);
    if 0 <= i <= a < b <= s.len() {
        let next = acc.push(s.subrange(a, b));
        lemma_words_stay(s, b, next);
        let w = words_from(s, b, next);
        assert(w.subrange(0, acc.len() as int) =~= acc) by {
            assert forall|k: int| 0 <= k < acc.len() implies w[k] == acc[k] by {
                assert(w.subrange(0, next.len() as int)[k] == next[k]);
            }
        }
    } else {
        assert(acc.subrange(0, acc.len() as int) =~= acc);
    }
}

/// A decimal rendering reads back as its number, and holds digits only.
pub(crate) proof fn lemma_decimal_reads_back(n: nat)
    ensures
        decimal_chars(n).len() > 0,
        all_digits(decimal_chars(n)),
        digits_value(decimal_chars(n)) == n,
    decreases n,
{
    if n >= 10 {
        lemma_decimal_reads_back(n / 10);
        let d = decimal_chars(n / 10);
        assert(decimal_chars(n).drop_last() =~= d);
        assert forall|k: int| 0 <= k < decimal_chars(n).len() implies is_digit(
            #[trigger] decimal_chars(n)[k],
        ) by {
            if k < d.len() {
                assert(decimal_chars(n)[k] == d[k]);
            }
        }
    } else {
        assert(decimal_chars(n).drop_last() =~= Seq::empty());
        assert(digits_value(Seq::empty()) == 0);
    }
}

} // verus!
