//! Text primitives: numerals, searching, and the digit grouping used
//! in log lines.
//!
//! Text is modelled as a sequence of characters.

use vstd::prelude::*;
use vstd::string::*;
use vstd::utf8::*;

verus! {

/// `String::push` appends the given character to the end of the string.
pub assume_specification[ String::push ](s: &mut String, c: char)
    ensures
        final(s)@ == old(s)@.push(c),
;

/// The characters of `s`, in order.
pub fn chars_of(s: &str) -> (r: Vec<char>)
    ensures
        r@ == s@,
{
    let mut out: Vec<char> = Vec::new();
    for c in it: s.chars()
        invariant
            out@ == it.seq().take(it.index() as int),
            it.seq() == s@,
    {
        out.push(c);
    }
    out
}

/// The string made of `chars[from..to]`.
pub fn string_of(chars: &[char], from: usize, to: usize) -> (r: String)
    requires
        from <= to <= chars@.len(),
    ensures
        r@ == chars@.subrange(from as int, to as int),
{
    let mut out = String::new();
    for i in from..to
        invariant
            from <= to <= chars@.len(),
            out@ == chars@.subrange(from as int, i as int),
    {
        out.push(chars[i]);
    }
    out
}

/// Whether two texts hold the same characters.
pub fn same_text(a: &str, b: &str) -> (r: bool)
    ensures
        r == (a@ == b@),
{
    let x = a.as_bytes();
    let y = b.as_bytes();
    if x.len() != y.len() {
        return false;
    }
    for i in 0..x.len()
        invariant
            x@ == encode_utf8(a@),
            y@ == encode_utf8(b@),
            x@.len() == y@.len(),
            forall|j: int| 0 <= j < i ==> x@[j] == y@[j],
    {
        if x[i] != y[i] {
            return false;
        }
    }
    proof {
        assert(x@ =~= y@);
        encode_utf8_decode_utf8(a@);
        encode_utf8_decode_utf8(b@);
    }
    true
}

// ---------------------------------------------------------------------
// Numerals
// ---------------------------------------------------------------------

/// The character of a digit below sixteen, lower case.
pub open spec fn digit(d: int) -> char {
    if d < 10 {
        (48 + d) as char
    } else {
        (87 + d) as char
    }
}

/// The decimal numeral of `n`, without leading zeros.
pub open spec fn dec(n: nat) -> Seq<char>
    decreases n,
{
    if n < 10 {
        seq![digit(n as int)]
    } else {
        dec(n / 10).push(digit((n % 10) as int))
    }
}

/// The lower-case hexadecimal numeral of `n`, without leading zeros.
pub open spec fn hex_numeral(n: nat) -> Seq<char>
    decreases n,
{
    if n < 16 {
        seq![digit(n as int)]
    } else {
        hex_numeral(n / 16).push(digit((n % 16) as int))
    }
}

/// `n` as exactly `width` lower-case hexadecimal digits.
pub open spec fn hex_padded(n: nat, width: nat) -> Seq<char>
    decreases width,
{
    if width == 0 {
        seq![]
    } else {
        hex_padded(n / 16, (width - 1) as nat).push(digit((n % 16) as int))
    }
}

fn digit_char(d: u8) -> (r: char)
    requires
        d < 16,
    ensures
        r == digit(d as int),
{
    if d < 10 {
        (48 + d) as char
    } else {
        (87 + d) as char
    }
}

/// Append the decimal numeral of `n`.
pub fn push_dec(out: &mut String, n: u64)
    ensures
        final(out)@ == old(out)@ + dec(n as nat),
    decreases n,
{
    if n >= 10 {
        push_dec(out, n / 10);
    }
    out.push(digit_char((n % 10) as u8));
    proof {
        assert(final(out)@ =~= old(out)@ + dec(n as nat));
    }
}

/// Append the hexadecimal numeral of `n`.
pub fn push_hex(out: &mut String, n: u64)
    ensures
        final(out)@ == old(out)@ + hex_numeral(n as nat),
    decreases n,
{
    if n >= 16 {
        push_hex(out, n / 16);
    }
    out.push(digit_char((n % 16) as u8));
    proof {
        assert(final(out)@ =~= old(out)@ + hex_numeral(n as nat));
    }
}

/// Append `n` as exactly `width` hexadecimal digits.
pub fn push_hex_padded(out: &mut String, n: u64, width: u8)
    ensures
        final(out)@ == old(out)@ + hex_padded(n as nat, width as nat),
    decreases width,
{
    if width > 0 {
        push_hex_padded(out, n / 16, width - 1);
        out.push(digit_char((n % 16) as u8));
    }
    proof {
        assert(final(out)@ =~= old(out)@ + hex_padded(n as nat, width as nat));
    }
}

/// The decimal numeral of `n`.
pub fn dec_of(n: u64) -> (r: String)
    ensures
        r@ == dec(n as nat),
{
    let mut out = String::new();
    push_dec(&mut out, n);
    out
}

pub open spec fn is_digit(c: char) -> bool {
    '0' <= c <= '9'
}

pub open spec fn all_digits(s: Seq<char>) -> bool {
    forall|i: int| 0 <= i < s.len() ==> is_digit(#[trigger] s[i])
}

/// The number a run of decimal digits denotes.
pub open spec fn digits_value(s: Seq<char>) -> nat
    decreases s.len(),
{
    if s.len() == 0 {
        0
    } else {
        (digits_value(s.drop_last()) * 10 + (s.last() as int - 48)) as nat
    }
}

/// The number a non-empty run of decimal digits denotes.
pub open spec fn numeral_value(s: Seq<char>) -> Option<nat> {
    if s.len() > 0 && all_digits(s) {
        Some(digits_value(s))
    } else {
        None
    }
}

/// The number an unsigned integer literal denotes: decimal digits with
/// an optional leading `+`.
pub open spec fn unsigned_value(s: Seq<char>) -> Option<nat> {
    if s.len() > 0 && s[0] == '+' {
        numeral_value(s.skip(1))
    } else {
        numeral_value(s)
    }
}

/// The number a signed integer literal denotes: decimal digits with an
/// optional leading `+` or `-`.
pub open spec fn signed_value(s: Seq<char>) -> Option<int> {
    if s.len() > 0 && s[0] == '-' {
        match numeral_value(s.skip(1)) {
            Some(n) => Some(-(n as int)),
            None => None,
        }
    } else {
        match unsigned_value(s) {
            Some(n) => Some(n as int),
            None => None,
        }
    }
}

/// The literal's value where it is at most `limit`.
pub open spec fn unsigned_upto(s: Seq<char>, limit: nat) -> Option<nat> {
    match unsigned_value(s) {
        Some(n) => if n <= limit {
            Some(n)
        } else {
            None
        },
        None => None,
    }
}

/// The literal's value where it fits an `i64`.
pub open spec fn signed_i64(s: Seq<char>) -> Option<int> {
    match signed_value(s) {
        Some(n) => if i64::MIN <= n <= i64::MAX {
            Some(n)
        } else {
            None
        },
        None => None,
    }
}

/// Reading a decimal numeral gives back the number it was written from.
pub proof fn law_numeral_round_trip(n: nat)
    ensures
        dec(n).len() > 0,
        all_digits(dec(n)),
        digits_value(dec(n)) == n,
        unsigned_value(dec(n)) == Some(n),
    decreases n,
{
    if n < 10 {
        assert(dec(n).drop_last() =~= seq![]);
        assert(digits_value(seq![]) == 0);
    } else {
        law_numeral_round_trip(n / 10);
        assert(dec(n).drop_last() =~= dec(n / 10));
    }
    assert(is_digit(dec(n)[0]));
}

/// A padded numeral has exactly its width, and lower-case hexadecimal
/// digits only.
pub proof fn law_padded_numerals(n: nat, width: nat)
    ensures
        hex_padded(n, width).len() == width,
        forall|i: int|
            0 <= i < width ==> {
                let c = #[trigger] hex_padded(n, width)[i];
                '0' <= c <= '9' || 'a' <= c <= 'f'
            },
    decreases width,
{
    if width > 0 {
        law_padded_numerals(n / 16, (width - 1) as nat);
    }
}

/// Different numbers have different hexadecimal numerals.
pub proof fn law_hex_numerals_differ(a: nat, b: nat)
    requires
        a != b,
    ensures
        hex_numeral(a) != hex_numeral(b),
    decreases a,
{
    if hex_numeral(a) == hex_numeral(b) {
        lemma_hex_numeral(a / 16);
        lemma_hex_numeral(b / 16);
        assert(hex_numeral(a).last() == digit((a % 16) as int));
        assert(hex_numeral(b).last() == digit((b % 16) as int));
        assert(a % 16 == b % 16);
        if a >= 16 && b >= 16 {
            assert(hex_numeral(a).drop_last() =~= hex_numeral(a / 16));
            assert(hex_numeral(b).drop_last() =~= hex_numeral(b / 16));
            law_hex_numerals_differ(a / 16, b / 16);
        }
    }
}

/// A hexadecimal numeral is never empty and holds digits only.
pub proof fn lemma_hex_numeral(n: nat)
    ensures
        hex_numeral(n).len() > 0,
        forall|i: int|
            0 <= i < hex_numeral(n).len() ==> #[trigger] hex_numeral(n)[i] != '-',
    decreases n,
{
    if n >= 16 {
        lemma_hex_numeral(n / 16);
    }
}

/// Text is split by its first separator in one way only.
pub proof fn lemma_split_unique(a: Seq<char>, x: Seq<char>, b: Seq<char>, y: Seq<char>, c: char)
    requires
        a + seq![c] + x == b + seq![c] + y,
        forall|i: int| 0 <= i < a.len() ==> #[trigger] a[i] != c,
        forall|i: int| 0 <= i < b.len() ==> #[trigger] b[i] != c,
    ensures
        a == b,
        x == y,
{
    let s = a + seq![c] + x;
    let t = b + seq![c] + y;
    assert(s[a.len() as int] == c);
    assert(t[b.len() as int] == c);
    if a.len() < b.len() {
        assert(t[a.len() as int] == b[a.len() as int]);
    } else if b.len() < a.len() {
        assert(s[b.len() as int] == a[b.len() as int]);
    }
    assert(a =~= s.take(a.len() as int));
    assert(b =~= t.take(b.len() as int));
    assert(x =~= s.skip(a.len() as int + 1));
    assert(y =~= t.skip(b.len() as int + 1));
}

proof fn lemma_digits_value_prefix(s: Seq<char>, k: int)
    requires
        0 <= k <= s.len(),
        all_digits(s),
    ensures
        digits_value(s.take(k)) <= digits_value(s),
    decreases s.len() - k,
{
    if k == s.len() {
        assert(s.take(k) =~= s);
    } else {
        lemma_digits_value_prefix(s, k + 1);
        assert(s.take(k + 1).drop_last() =~= s.take(k));
        assert(is_digit(s[k]));
    }
}

fn numeral_upto(chars: &[char], start: usize, limit: u64) -> (r: Option<u64>)
    requires
        start <= chars@.len(),
    ensures
        match r {
            Some(n) => numeral_value(chars@.skip(start as int)) == Some(n as nat) && n <= limit,
            None => match numeral_value(chars@.skip(start as int)) {
                Some(n) => n > limit,
                None => true,
            },
        },
{
    if start == chars.len() {
        return None;
    }
    let ghost s = chars@.skip(start as int);
    let mut v: u64 = 0;
    for i in start..chars.len()
        invariant
            start < chars@.len(),
            s == chars@.skip(start as int),
            all_digits(s.take(i - start)),
            v == digits_value(s.take(i - start)),
            v <= limit,
    {
        let c = chars[i];
        proof {
            assert(s.take(i - start + 1).drop_last() =~= s.take(i - start));
            assert(s[i - start] == c);
        }
        if !('0' <= c && c <= '9') {
            proof {
                assert(!is_digit(s[i - start]));
            }
            return None;
        }
        let d: u64 = (c as u32 - 48) as u64;
        proof {
            assert(all_digits(s.take(i - start + 1))) by {
                assert forall|j: int| 0 <= j < i - start + 1 implies is_digit(
                    #[trigger] s.take(i - start + 1)[j],
                ) by {
                    if j < i - start {
                        assert(is_digit(s.take(i - start)[j]));
                    }
                }
            }
            if all_digits(s) {
                lemma_digits_value_prefix(s, i - start + 1);
            }
        }
        if d > limit || v > limit / 10 || v * 10 > limit - d {
            return None;
        }
        v = v * 10 + d;
    }
    proof {
        assert(s.take(chars@.len() - start) =~= s);
    }
    Some(v)
}

/// Read an unsigned integer literal of at most `limit`.
pub fn parse_unsigned(text: &str, limit: u64) -> (r: Option<u64>)
    ensures
        match r {
            Some(n) => unsigned_upto(text@, limit as nat) == Some(n as nat),
            None => unsigned_upto(text@, limit as nat) is None,
        },
{
    let chars = chars_of(text);
    proof {
        assert(chars@.skip(0) =~= chars@);
    }
    if chars.len() > 0 && chars[0] == '+' {
        numeral_upto(&chars, 1, limit)
    } else {
        numeral_upto(&chars, 0, limit)
    }
}

/// Read a signed integer literal that fits an `i64`.
pub fn parse_i64(text: &str) -> (r: Option<i64>)
    ensures
        match r {
            Some(n) => signed_i64(text@) == Some(n as int),
            None => signed_i64(text@) is None,
        },
{
    let chars = chars_of(text);
    if chars.len() > 0 && chars[0] == '-' {
        match numeral_upto(&chars, 1, 9_223_372_036_854_775_808) {
            Some(n) => {
                if n == 9_223_372_036_854_775_808 {
                    Some(i64::MIN)
                } else {
                    Some(-(n as i64))
                }
            },
            None => None,
        }
    } else {
        match parse_unsigned(text, 9_223_372_036_854_775_807) {
            Some(n) => Some(n as i64),
            None => None,
        }
    }
}

// ---------------------------------------------------------------------
// Searching
// ---------------------------------------------------------------------

/// The parts before and after the first `c`.
pub open spec fn split_at_first(s: Seq<char>, c: char) -> Option<(Seq<char>, Seq<char>)> {
    match s.index_of_first(c) {
        Some(i) => Some((s.take(i), s.skip(i + 1))),
        None => None,
    }
}

/// Split `text` around its first `c`.
pub fn split_once(text: &str, c: char) -> (r: Option<(String, String)>)
    ensures
        match r {
            Some(p) => split_at_first(text@, c) == Some((p.0@, p.1@)),
            None => split_at_first(text@, c) is None,
        },
{
    let chars = chars_of(text);
    proof {
        text@.index_of_first_ensures(c);
    }
    for i in 0..chars.len()
        invariant
            chars@ == text@,
            forall|j: int| 0 <= j < i ==> chars@[j] != c,
    {
        if chars[i] == c {
            proof {
                text@.index_of_first_ensures(c);
                assert(text@.contains(text@[i as int]));
                let k = text@.index_of_first(c)->0;
                assert(k == i);
                assert(chars@.subrange(0, i as int) =~= text@.take(i as int));
                assert(chars@.subrange(i + 1, chars@.len() as int) =~= text@.skip(i + 1));
            }
            return Some((string_of(&chars, 0, i), string_of(&chars, i + 1, chars.len())));
        }
    }
    None
}

/// Whether `c` occurs in `text`.
pub fn has_char(text: &str, c: char) -> (r: bool)
    ensures
        r == text@.contains(c),
{
    let chars = chars_of(text);
    for i in 0..chars.len()
        invariant
            chars@ == text@,
            forall|j: int| 0 <= j < i ==> chars@[j] != c,
    {
        if chars[i] == c {
            proof {
                assert(text@.contains(text@[i as int]));
            }
            return true;
        }
    }
    false
}

/// `text` without the suffix `suffix`, where it ends so.
pub fn strip_suffix(text: &str, suffix: &str) -> (r: Option<String>)
    ensures
        match r {
            Some(p) => suffix@.is_suffix_of(text@) && p@ == text@.take(
                text@.len() - suffix@.len(),
            ),
            None => !suffix@.is_suffix_of(text@),
        },
{
    let chars = chars_of(text);
    let tail = chars_of(suffix);
    if tail.len() > chars.len() {
        return None;
    }
    let at: usize = chars.len() - tail.len();
    for i in 0..tail.len()
        invariant
            chars@ == text@,
            tail@ == suffix@,
            at + tail.len() == chars.len(),
            forall|j: int| 0 <= j < i ==> chars@[at + j] == tail@[j],
    {
        if chars[at + i] != tail[i] {
            proof {
                let sub = text@.subrange(text@.len() - suffix@.len(), text@.len() as int);
                assert(sub[i as int] != suffix@[i as int]);
            }
            return None;
        }
    }
    proof {
        assert(suffix@ =~= text@.subrange(text@.len() - suffix@.len(), text@.len() as int));
        assert(chars@.subrange(0, at as int) =~= text@.take(at as int));
    }
    Some(string_of(&chars, 0, at))
}

/// Whether `needle` stands in `hay` at position `i`.
pub open spec fn occurs_at(hay: Seq<char>, needle: Seq<char>, i: int) -> bool {
    0 <= i && i + needle.len() <= hay.len() && hay.subrange(i, i + needle.len()) == needle
}

/// The first position at or after `i` where `needle` stands in `hay`.
pub open spec fn find_from(hay: Seq<char>, needle: Seq<char>, i: int) -> Option<int>
    decreases hay.len() - i + 1,
{
    if i < 0 || i + needle.len() > hay.len() {
        None
    } else if occurs_at(hay, needle, i) {
        Some(i)
    } else {
        find_from(hay, needle, i + 1)
    }
}

/// The first position where `needle` stands in `hay`.
pub open spec fn find(hay: Seq<char>, needle: Seq<char>) -> Option<int> {
    find_from(hay, needle, 0)
}

fn stands_at(hay: &[char], needle: &[char], i: usize) -> (r: bool)
    requires
        i + needle@.len() <= hay@.len(),
    ensures
        r == occurs_at(hay@, needle@, i as int),
{
    for j in 0..needle.len()
        invariant
            i + needle.len() <= hay.len(),
            forall|k: int| 0 <= k < j ==> hay@[i + k] == needle@[k],
    {
        if hay[i + j] != needle[j] {
            proof {
                assert(hay@.subrange(i as int, i + needle@.len())[j as int] != needle@[j as int]);
            }
            return false;
        }
    }
    proof {
        assert(hay@.subrange(i as int, i + needle@.len()) =~= needle@);
    }
    true
}

/// The first position where `needle` stands in `hay`.
pub fn find_chars(hay: &[char], needle: &[char]) -> (r: Option<usize>)
    ensures
        match r {
            Some(i) => find(hay@, needle@) == Some(i as int) && occurs_at(hay@, needle@, i as int),
            None => find(hay@, needle@) is None,
        },
{
    if needle.len() > hay.len() {
        return None;
    }
    let last: usize = hay.len() - needle.len();
    let mut i: usize = 0;
    while i <= last
        invariant
            last == hay@.len() - needle@.len(),
            i <= last + 1,
            find(hay@, needle@) == find_from(hay@, needle@, i as int),
        decreases last + 1 - i,
    {
        if stands_at(hay, needle, i) {
            return Some(i);
        }
        if i == last {
            return None;
        }
        i = i + 1;
    }
    None
}

/// Whether `needle` occurs in `hay`.
pub fn has_text(hay: &str, needle: &str) -> (r: bool)
    ensures
        r == find(hay@, needle@) is Some,
{
    let h = chars_of(hay);
    let n = chars_of(needle);
    find_chars(&h, &n).is_some()
}

// ---------------------------------------------------------------------
// Order
// ---------------------------------------------------------------------

/// Lexicographic order by character.
pub open spec fn lex_less(a: Seq<char>, b: Seq<char>) -> bool
    decreases a.len(),
{
    if b.len() == 0 {
        false
    } else if a.len() == 0 {
        true
    } else if a[0] == b[0] {
        lex_less(a.skip(1), b.skip(1))
    } else {
        a[0] < b[0]
    }
}

/// Whether `a` comes strictly before `b`.
pub fn text_less(a: &str, b: &str) -> (r: bool)
    ensures
        r == lex_less(a@, b@),
{
    let x = chars_of(a);
    let y = chars_of(b);
    let mut i: usize = 0;
    proof {
        assert(x@.skip(0) =~= x@);
        assert(y@.skip(0) =~= y@);
    }
    while i < x.len() && i < y.len()
        invariant
            x@ == a@,
            y@ == b@,
            i <= x@.len(),
            i <= y@.len(),
            lex_less(a@, b@) == lex_less(x@.skip(i as int), y@.skip(i as int)),
        decreases x@.len() - i,
    {
        if x[i] != y[i] {
            return x[i] < y[i];
        }
        proof {
            assert(x@.skip(i as int).skip(1) =~= x@.skip(i + 1));
            assert(y@.skip(i as int).skip(1) =~= y@.skip(i + 1));
        }
        i = i + 1;
    }
    i < y.len()
}

// ---------------------------------------------------------------------
// Digit grouping
// ---------------------------------------------------------------------

/// `s` with a `_` before every group of three characters, counted from
/// the end.
pub open spec fn grouped(s: Seq<char>) -> Seq<char>
    decreases s.len(),
{
    if s.len() <= 3 {
        s
    } else {
        grouped(s.take(s.len() - 3)).push('_') + s.skip(s.len() - 3)
    }
}

/// What the first `i` of `s` become when `s` is grouped.
spec fn grouped_upto(s: Seq<char>, i: int) -> Seq<char>
    decreases i,
{
    if i <= 0 {
        seq![]
    } else if i > 1 && (s.len() - (i - 1)) % 3 == 0 {
        grouped_upto(s, i - 1).push('_').push(s[i - 1])
    } else {
        grouped_upto(s, i - 1).push(s[i - 1])
    }
}

proof fn lemma_grouped_upto_prefix(s: Seq<char>, i: int)
    requires
        3 <= s.len(),
        0 <= i <= s.len() - 3,
    ensures
        grouped_upto(s, i) == grouped_upto(s.take(s.len() - 3), i),
    decreases i,
{
    if i > 0 {
        lemma_grouped_upto_prefix(s, i - 1);
    }
}

proof fn lemma_grouped_upto(s: Seq<char>)
    ensures
        grouped_upto(s, s.len() as int) == grouped(s),
    decreases s.len(),
{
    let n = s.len() as int;
    reveal_with_fuel(grouped_upto, 4);
    if n <= 3 {
        assert(grouped_upto(s, n) =~= s);
    } else {
        let head = s.take(n - 3);
        lemma_grouped_upto(head);
        lemma_grouped_upto_prefix(s, n - 3);
        assert(grouped_upto(s, n) =~= grouped(head).push('_') + s.skip(n - 3));
    }
}

/// Group digits with '_' for log readability: 10005958 -> 10_005_958.
/// Log lines only; JSON values stay plain numbers.
pub fn eng(n: u64) -> (r: String)
    ensures
        r@ == grouped(dec(n as nat)),
{
    let s = dec_of(n);
    let digits = chars_of(&s);
    let mut out = String::new();
    for i in 0..digits.len()
        invariant
            out@ == grouped_upto(digits@, i as int),
    {
        if i > 0 && (digits.len() - i) % 3 == 0 {
            out.push('_');
        }
        out.push(digits[i]);
    }
    proof {
        lemma_grouped_upto(digits@);
    }
    out
}

// ---------------------------------------------------------------------
// Laws
// ---------------------------------------------------------------------

proof fn lemma_find_from(hay: Seq<char>, needle: Seq<char>, i: int)
    requires
        0 <= i,
    ensures
        match find_from(hay, needle, i) {
            Some(k) => {
                &&& i <= k <= hay.len() - needle.len()
                &&& hay.subrange(k, k + needle.len()) == needle
                &&& forall|j: int|
                    i <= j < k ==> #[trigger] hay.subrange(j, j + needle.len()) != needle
            },
            None => forall|j: int|
                i <= j <= hay.len() - needle.len() ==> #[trigger] hay.subrange(
                    j,
                    j + needle.len(),
                ) != needle,
        },
    decreases hay.len() - i + 1,
{
    if i + needle.len() <= hay.len() && !occurs_at(hay, needle, i) {
        lemma_find_from(hay, needle, i + 1);
    }
}

/// A search finds the first place where the text stands, and finds
/// nothing only where it stands nowhere.
pub proof fn law_find_is_the_first_place(hay: Seq<char>, needle: Seq<char>)
    ensures
        match find(hay, needle) {
            Some(k) => {
                &&& 0 <= k <= hay.len() - needle.len()
                &&& hay.subrange(k, k + needle.len()) == needle
                &&& forall|j: int|
                    0 <= j < k ==> #[trigger] hay.subrange(j, j + needle.len()) != needle
            },
            None => forall|j: int|
                0 <= j <= hay.len() - needle.len() ==> #[trigger] hay.subrange(
                    j,
                    j + needle.len(),
                ) != needle,
        },
{
    lemma_find_from(hay, needle, 0);
}

/// A text is cut at its first separator: what stands before it holds
/// none, and the two parts with the separator between them are the text.
pub proof fn law_split_is_at_the_first(s: Seq<char>, c: char)
    ensures
        match split_at_first(s, c) {
            Some((before, after)) => s == before + seq![c] + after && !before.contains(c),
            None => !s.contains(c),
        },
{
    s.index_of_first_ensures(c);
    if let Some((before, after)) = split_at_first(s, c) {
        assert(s =~= before + seq![c] + after);
    }
}

/// The order of texts is that of the characters where they first differ;
/// a text comes after each proper beginning of it, and never before
/// itself.
pub proof fn law_order_is_lexicographic(a: Seq<char>, b: Seq<char>, i: int)
    requires
        0 <= i <= a.len(),
        i <= b.len(),
        forall|j: int| 0 <= j < i ==> #[trigger] a[j] == b[j],
    ensures
        i < a.len() && i < b.len() && a[i] != b[i] ==> lex_less(a, b) == (a[i] < b[i]),
        i == a.len() && i < b.len() ==> lex_less(a, b),
        i == b.len() ==> !lex_less(a, b),
    decreases i,
{
    if i > 0 {
        assert(a[0] == b[0]);
        assert forall|j: int| 0 <= j < i - 1 implies #[trigger] a.skip(1)[j] == b.skip(1)[j] by {
            assert(a[j + 1] == b[j + 1]);
        }
        law_order_is_lexicographic(a.skip(1), b.skip(1), i - 1);
    }
}

/// Numerals are positional: one more decimal digit at the end stands for
/// ten times the number and the digit, and reads back so.
pub proof fn law_numerals_are_positional(n: nat, d: nat, s: Seq<char>)
    requires
        d < 10,
        all_digits(s),
    ensures
        n > 0 ==> dec(10 * n + d) == dec(n).push((('0' as int) + d) as char),
        dec(d) == seq![(('0' as int) + d) as char],
        digits_value(seq![]) == 0,
        digits_value(s.push((('0' as int) + d) as char)) == 10 * digits_value(s) + d,
{
    let t = s.push((('0' as int) + d) as char);
    assert(t.drop_last() =~= s);
    if n > 0 {
        assert((10 * n + d) / 10 == n && (10 * n + d) % 10 == d);
    }
}

/// A signed literal: a number's numeral reads as the number, with `-`
/// before it as its negative and with `+` before it as itself; a numeral
/// with any other character in it reads as nothing.
pub proof fn law_signed_literals(n: nat, s: Seq<char>, i: int)
    requires
        0 < i < s.len(),
        !('0' <= s[i] <= '9'),
    ensures
        signed_value(dec(n)) == Some(n as int),
        signed_value(seq!['-'] + dec(n)) == Some(-(n as int)),
        signed_value(seq!['+'] + dec(n)) == Some(n as int),
        unsigned_value(seq!['+'] + dec(n)) == Some(n),
        unsigned_value(seq!['-'] + dec(n)) is None,
        signed_value(s) is None,
        unsigned_value(s) is None,
        signed_value(seq![]) is None,
        unsigned_value(seq![]) is None,
{
    law_numeral_round_trip(n);
    assert((seq!['-'] + dec(n)).skip(1) =~= dec(n));
    assert((seq!['+'] + dec(n)).skip(1) =~= dec(n));
    assert(is_digit(dec(n)[0]));
    assert(!is_digit((seq!['-'] + dec(n))[0]));
    assert(!is_digit(s[i]));
    assert(s.skip(1)[i - 1] == s[i]);
}

/// What a literal's value is limited by: it is refused above the limit,
/// and only there.
pub proof fn law_limits_refuse_only_what_is_above(n: nat, limit: nat)
    ensures
        unsigned_upto(dec(n), limit) == if n <= limit {
            Some(n)
        } else {
            None::<nat>
        },
        signed_i64(dec(n)) == if n <= 0x7fff_ffff_ffff_ffff {
            Some(n as int)
        } else {
            None::<int>
        },
        signed_i64(seq!['-'] + dec(n)) == if n <= 0x8000_0000_0000_0000 {
            Some(-(n as int))
        } else {
            None::<int>
        },
{
    law_signed_literals(n, seq!['0', 'x'], 1);
    law_numeral_round_trip(n);
}

/// Grouping changes no digit and parts them by threes, counted from the
/// end: every fourth character from the end is a `_`, and the others are
/// the text.
pub proof fn law_grouping_is_by_threes(s: Seq<char>, k: int)
    requires
        0 <= k < grouped(s).len(),
    ensures
        s.len() > 0,
        grouped(s).len() == s.len() + (s.len() - 1) / 3,
        k % 4 == 3 ==> grouped(s)[grouped(s).len() - 1 - k] == '_',
        k % 4 != 3 ==> 0 <= k - k / 4 < s.len() && grouped(s)[grouped(s).len() - 1 - k] == s[s.len()
            - 1 - (k - k / 4)],
    decreases s.len(),
{
    if s.len() > 3 {
        let head = s.take(s.len() - 3);
        let g = grouped(head);
        let all = grouped(s);
        assert(g.len() > 0) by {
            reveal_with_fuel(grouped, 2);
        }
        law_grouping_is_by_threes(head, 0);
        assert(all =~= g.push('_') + s.skip(s.len() - 3));
        if k >= 4 {
            law_grouping_is_by_threes(head, k - 4);
            assert(all[all.len() - 1 - k] == g[g.len() - 1 - (k - 4)]);
        }
    }
}

/// Hexadecimal numerals are positional too, padded or not.
pub proof fn law_hex_numerals_are_positional(n: nat, d: nat, width: nat)
    requires
        d < 16,
    ensures
        ({
            let c = if d < 10 {
                (('0' as int) + d) as char
            } else {
                (('a' as int) + d - 10) as char
            };
            &&& hex_padded(16 * n + d, width + 1) == hex_padded(n, width).push(c)
            &&& n > 0 ==> hex_numeral(16 * n + d) == hex_numeral(n).push(c)
            &&& hex_numeral(d) == seq![c]
        }),
{
    assert((16 * n + d) / 16 == n && (16 * n + d) % 16 == d);
}

/// Any run of digits reads as the number it denotes, leading zeros and
/// all, with or without a `+` before it.
pub proof fn law_any_digits_are_read(s: Seq<char>, limit: nat)
    requires
        s.len() > 0,
        forall|i: int| 0 <= i < s.len() ==> '0' <= #[trigger] s[i] <= '9',
    ensures
        unsigned_value(s) == Some(digits_value(s)),
        unsigned_value(seq!['+'] + s) == Some(digits_value(s)),
        unsigned_upto(s, limit) is Some <==> digits_value(s) <= limit,
        digits_value(seq!['0'] + s) == digits_value(s),
{
    assert(all_digits(s));
    assert((seq!['+'] + s).skip(1) =~= s);
    assert('0' <= s[0] <= '9');
    lemma_leading_zero(s);
}

proof fn lemma_leading_zero(s: Seq<char>)
    ensures
        digits_value(seq!['0'] + s) == digits_value(s),
    decreases s.len(),
{
    let t = seq!['0'] + s;
    if s.len() == 0 {
        assert(t.drop_last() =~= seq![]);
        assert(digits_value(seq![]) == 0);
    } else {
        assert(t.drop_last() =~= seq!['0'] + s.drop_last());
        lemma_leading_zero(s.drop_last());
    }
}

} // verus!
