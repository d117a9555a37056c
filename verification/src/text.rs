//! Text: how a line falls into tokens, which tokens are numbers, and how a
//! number is written out.

use vstd::prelude::*;
use vstd::std_specs::iter::IteratorSpec;
use crate::words::Value;

verus! {

/// The upper-case form of the text `s`, as `str::to_uppercase` of the
/// standard library gives it.
pub uninterp spec fn uppercase(s: Seq<char>) -> Seq<char>;

/// Whether `c` counts as white space, as `char::is_whitespace` of the
/// standard library decides it.
pub uninterp spec fn is_whitespace(c: char) -> bool;

/// Whether `c` is a control character: one of the code points U+0000 to
/// U+001F and U+007F to U+009F, which make up Unicode's category `Cc`.
pub open spec fn is_control(c: char) -> bool {
    c as u32 <= 0x1F || 0x7F <= c as u32 <= 0x9F
}

/// `str::to_uppercase`: the text it returns depends on the text it is given
/// and on nothing else. Nothing more is claimed of that text.
pub assume_specification[ str::to_uppercase ](s: &str) -> (r: String)
    ensures
        r@ == uppercase(s@),
;

/// `char::is_whitespace`: its answer depends on the character alone. Nothing
/// is claimed of which characters it accepts.
pub assume_specification[ char::is_whitespace ](c: char) -> (r: bool)
    ensures
        r == is_whitespace(c),
;

/// `char::is_control`: true exactly of the characters in category `Cc`.
pub assume_specification[ char::is_control ](c: char) -> (r: bool)
    ensures
        r == is_control(c),
;

/// `String::push`: appends the one character to the end of the string.
pub assume_specification[ String::push ](s: &mut String, c: char)
    ensures
        final(s)@ == old(s)@.push(c),
;

/// The text `s` with a space in place of each control character.
pub open spec fn blank_controls(s: Seq<char>) -> Seq<char> {
    s.map_values(|c: char| if is_control(c) { ' ' } else { c })
}

/// The words of `s` when `cur` holds the characters of the word that `s`
/// goes on with: a white space character ends a word, and a word that would
/// be empty is none.
pub open spec fn split_from(s: Seq<char>, cur: Seq<char>) -> Seq<Seq<char>>
    decreases s.len(),
{
    let ended = if cur.len() == 0 { Seq::<Seq<char>>::empty() } else { seq![cur] };
    if s.len() == 0 {
        ended
    } else if is_whitespace(s[0]) {
        ended + split_from(s.drop_first(), Seq::empty())
    } else {
        split_from(s.drop_first(), cur.push(s[0]))
    }
}

/// The words of `s`: its longest stretches without white space, in order.
pub open spec fn split(s: Seq<char>) -> Seq<Seq<char>> {
    split_from(s, Seq::empty())
}

/// The tokens of a line: control characters become spaces, the line is put
/// in upper case, and what lies between white space is a token.
pub open spec fn tokens_of(line: Seq<char>) -> Seq<Seq<char>> {
    split(uppercase(blank_controls(line)))
}

/// The text of each string of `v`.
pub open spec fn texts(v: Seq<String>) -> Seq<Seq<char>> {
    v.map_values(|t: String| t@)
}

/// Copies `s` with each control character replaced by a space.
pub fn to_space_separated(s: &str) -> (r: String)
    ensures
        r@ == blank_controls(s@),
{
    let mut out = String::new();
    for c in it: s.chars()
        invariant
            it.seq() == s@,
            out@ == blank_controls(s@.take(it.index() as int)),
    {
        out.push(if c.is_control() { ' ' } else { c });
        assert(s@.take(it.index() + 1) == s@.take(it.index() as int).push(c));
    }
    assert(s@.take(s@.len() as int) == s@);
    out
}

/// The characters of `s`, one by one.
pub fn chars_of(s: &str) -> (r: Vec<char>)
    ensures
        r@ == s@,
{
    let mut out: Vec<char> = Vec::new();
    for c in it: s.chars()
        invariant
            it.seq() == s@,
            out@ == s@.take(it.index() as int),
    {
        out.push(c);
    }
    out
}

/// Cuts `s` into its words.
pub fn split_words(s: &str) -> (r: Vec<String>)
    ensures
        texts(r@) == split(s@),
{
    let mut done: Vec<String> = Vec::new();
    let mut cur = String::new();
    let mut pending = false;
    proof {
        assert(s@.skip(0) == s@);
        assert(texts(done@) + split(s@) == split(s@));
    }
    for c in it: s.chars()
        invariant
            it.seq() == s@,
            pending == (cur@.len() > 0),
            split(s@) == texts(done@) + split_from(s@.skip(it.index() as int), cur@),
    {
        let ghost rest = s@.skip(it.index() as int);
        let ghost before = texts(done@);
        let ghost word = cur@;
        assert(rest.drop_first() == s@.skip(it.index() + 1));
        assert(rest[0] == c);
        if c.is_whitespace() {
            if pending {
                done.push(cur);
                cur = String::new();
                pending = false;
                proof {
                    let tail = split_from(rest.drop_first(), Seq::empty());
                    assert(texts(done@) == before + seq![word]);
                    assert(split_from(rest, word) == seq![word] + tail);
                    assert(before + (seq![word] + tail) == (before + seq![word]) + tail);
                }
            } else {
                assert(word == Seq::<char>::empty());
                assert(Seq::<Seq<char>>::empty() + split_from(rest.drop_first(), Seq::empty())
                    == split_from(rest.drop_first(), Seq::empty()));
            }
        } else {
            cur.push(c);
            pending = true;
            assert(split_from(rest, word) == split_from(rest.drop_first(), word.push(c)));
        }
    }
    if pending {
        let ghost before = texts(done@);
        let ghost word = cur@;
        done.push(cur);
        assert(texts(done@) == before + seq![word]);
    } else {
        assert(texts(done@) + Seq::<Seq<char>>::empty() == texts(done@));
    }
    done
}

/// Cuts a line into its tokens.
pub fn tokenize(line: &str) -> (r: Vec<String>)
    ensures
        texts(r@) == tokens_of(line@),
{
    let spaced = to_space_separated(line);
    let upper = spaced.as_str().to_uppercase();
    split_words(upper.as_str())
}

/// Whether `c` is one of the ten digits `0` to `9`.
pub open spec fn is_digit(c: char) -> bool {
    0x30 <= c as u32 <= 0x39
}

/// The number that the digit `c` stands for.
pub open spec fn digit_value(c: char) -> int {
    c as u32 - 0x30
}

/// Whether `s` holds digits only.
pub open spec fn all_digits(s: Seq<char>) -> bool {
    forall|i: int| 0 <= i < s.len() ==> is_digit(#[trigger] s[i])
}

/// The number that the digits `s` write in base ten.
pub open spec fn digits_value(s: Seq<char>) -> int
    decreases s.len(),
{
    if s.len() == 0 {
        0
    } else {
        10 * digits_value(s.drop_last()) + digit_value(s.last())
    }
}

/// The value of the token `s` where it is a number: one digit or more, with
/// or without a `-` in front, that write a 32-bit signed value. Any other
/// token is no number; a `+` in front is no sign.
pub open spec fn literal_value(s: Seq<char>) -> Option<Value> {
    let negative = s.len() > 0 && s[0] == '-';
    let digits = if negative { s.skip(1) } else { s };
    let v = if negative { -digits_value(digits) } else { digits_value(digits) };
    if digits.len() > 0 && all_digits(digits) && i32::MIN <= v <= i32::MAX {
        Some(v as Value)
    } else {
        None
    }
}

/// A run of digits writes no smaller number than any of its beginnings.
proof fn lemma_digits_value_grows(s: Seq<char>, k: int)
    requires
        all_digits(s),
        0 <= k <= s.len(),
    ensures
        0 <= digits_value(s.take(k)) <= digits_value(s),
    decreases s.len(),
{
    if k == s.len() {
        assert(s.take(k) == s);
        if s.len() > 0 {
            assert(is_digit(s.last()));
            assert(s.drop_last() == s.drop_last().take(k - 1));
            lemma_digits_value_grows(s.drop_last(), k - 1);
        }
    } else {
        assert(is_digit(s.last()));
        assert(s.drop_last().take(k) == s.take(k));
        lemma_digits_value_grows(s.drop_last(), k);
    }
}

/// Reads `token` as a number.
pub fn parse_value(token: &str) -> (r: Option<Value>)
    ensures
        r == literal_value(token@),
{
    let cs = chars_of(token);
    let n = cs.len();
    let negative = n > 0 && cs[0] == '-';
    let start: usize = if negative { 1 } else { 0 };
    if start == n {
        return None;
    }
    let ghost digits = cs@.skip(start as int);
    let mut acc: i64 = 0;
    let mut k: usize = start;
    while k < n
        invariant
            start <= k <= n,
            start < n,
            n == cs.len(),
            cs@ == token@,
            negative == (cs@[0] == '-'),
            start == if negative { 1usize } else { 0usize },
            digits == cs@.skip(start as int),
            all_digits(digits.take(k - start)),
            acc == digits_value(digits.take(k - start)),
            0 <= acc <= 0x8000_0000,
        decreases n - k,
    {
        let c = cs[k];
        let ghost seen = digits.take(k + 1 - start);
        assert(seen.drop_last() == digits.take(k - start));
        assert(seen.last() == c);
        assert(digits[k - start] == c);
        assert(digits == if negative { token@.skip(1) } else { token@ });
        let code: u32 = c as u32;
        if code < 0x30 || code > 0x39 {
            assert(!is_digit(digits[k - start]));
            return None;
        }
        let d: i64 = (code - 0x30) as i64;
        acc = acc * 10 + d;
        if acc > 0x8000_0000 {
            proof {
                if all_digits(digits) {
                    lemma_digits_value_grows(digits, k + 1 - start);
                }
            }
            return None;
        }
        k += 1;
    }
    assert(digits.take(n - start) == digits);
    assert(digits == if negative { token@.skip(1) } else { token@ });
    let v: i64 = if negative { -acc } else { acc };
    if v > 0x7FFF_FFFF {
        None
    } else {
        Some(v as i32)
    }
}

/// The character that writes the digit `d`.
pub open spec fn digit_char(d: int) -> char {
    (0x30 + d) as char
}

/// The natural number `n` written in base ten, without leading zeros.
pub open spec fn digits(n: nat) -> Seq<char>
    decreases n,
{
    if n < 10 {
        seq![digit_char(n as int)]
    } else {
        digits(n / 10).push(digit_char(n as int % 10))
    }
}

/// The integer `v` written in base ten, with a `-` in front where it is
/// negative.
pub open spec fn decimal(v: int) -> Seq<char> {
    if v < 0 {
        seq!['-'] + digits((-v) as nat)
    } else {
        digits(v as nat)
    }
}

/// Appends `n`, written in base ten, to `out`.
pub fn push_digits(out: &mut String, n: u32)
    ensures
        final(out)@ == old(out)@ + digits(n as nat),
    decreases n,
{
    if n >= 10 {
        push_digits(out, n / 10);
    }
    let d: u8 = (n % 10) as u8;
    out.push((0x30u8 + d) as char);
}

/// Appends `v`, written in base ten, to `out`.
pub fn push_decimal(out: &mut String, v: Value)
    ensures
        final(out)@ == old(out)@ + decimal(v as int),
{
    if v < 0 {
        out.push('-');
        let m: u32 = (-(v as i64)) as u32;
        push_digits(out, m);
    } else {
        push_digits(out, v as u32);
    }
}

/// The text of a stack: its values written in base ten from the bottom
/// to the top, with one space between two neighbours and none at either
/// end. The empty stack has the empty text.
pub open spec fn render(stack: Seq<Value>) -> Seq<char>
    decreases stack.len(),
{
    if stack.len() == 0 {
        Seq::empty()
    } else if stack.len() == 1 {
        decimal(stack[0] as int)
    } else {
        render(stack.drop_last()) + seq![' '] + decimal(stack.last() as int)
    }
}

/// Writes out a stack.
pub fn render_stack(stack: &Vec<Value>) -> (r: String)
    ensures
        r@ == render(stack@),
{
    let mut out = String::new();
    let mut k: usize = 0;
    while k < stack.len()
        invariant
            k <= stack.len(),
            out@ == render(stack@.take(k as int)),
        decreases stack.len() - k,
    {
        let ghost seen = stack@.take(k + 1);
        assert(seen.drop_last() == stack@.take(k as int));
        if k > 0 {
            out.push(' ');
        }
        push_decimal(&mut out, stack[k]);
        assert(out@ == render(seen)) by {
            if k > 0 {
                assert(render(seen.drop_last()).push(' ') == render(seen.drop_last()) + seq![' ']);
            } else {
                assert(Seq::<char>::empty() + decimal(stack[0] as int) == decimal(stack[0] as int));
            }
        }
        k += 1;
    }
    assert(stack@.take(stack.len() as int) == stack@);
    out
}

/// Whether `w` is a word: not empty, and free of white space.
pub open spec fn is_word(w: Seq<char>) -> bool {
    w.len() > 0 && forall|i: int| 0 <= i < w.len() ==> !is_whitespace(#[trigger] w[i])
}

/// Where the word in hand is free of white space, so is every word that
/// the splitting gives, and none of them is empty.
pub proof fn split_from_gives_words(s: Seq<char>, cur: Seq<char>)
    requires
        forall|i: int| 0 <= i < cur.len() ==> !is_whitespace(#[trigger] cur[i]),
    ensures
        forall|k: int| 0 <= k < split_from(s, cur).len() ==> is_word(#[trigger] split_from(s, cur)[k]),
    decreases s.len(),
{
    let ended = if cur.len() == 0 { Seq::<Seq<char>>::empty() } else { seq![cur] };
    assert forall|k: int| 0 <= k < ended.len() implies is_word(#[trigger] ended[k]) by {
        assert(ended[k] == cur);
    }
    if s.len() == 0 {
        assert(split_from(s, cur) == ended);
    } else if is_whitespace(s[0]) {
        let rest = split_from(s.drop_first(), Seq::empty());
        assert(split_from(s, cur) == ended + rest);
        split_from_gives_words(s.drop_first(), Seq::empty());
        assert forall|k: int| 0 <= k < (ended + rest).len() implies is_word(
            #[trigger] (ended + rest)[k],
        ) by {
            if k < ended.len() {
                assert((ended + rest)[k] == ended[k]);
            } else {
                assert((ended + rest)[k] == rest[k - ended.len()]);
            }
        }
    } else {
        let more = cur.push(s[0]);
        assert forall|i: int| 0 <= i < more.len() implies !is_whitespace(#[trigger] more[i]) by {
            if i < cur.len() {
                assert(more[i] == cur[i]);
            }
        }
        assert(split_from(s, cur) == split_from(s.drop_first(), more));
        split_from_gives_words(s.drop_first(), more);
    }
}

/// Every token of a line is a word: it is not empty and holds no white
/// space.
pub proof fn tokens_are_words(line: Seq<char>)
    ensures
        forall|k: int| 0 <= k < tokens_of(line).len() ==> is_word(#[trigger] tokens_of(line)[k]),
{
    split_from_gives_words(uppercase(blank_controls(line)), Seq::empty());
}

/// The digits that write `n` are digits, at least one, and write `n`.
pub proof fn digits_write_their_number(n: nat)
    ensures
        digits(n).len() > 0,
        all_digits(digits(n)),
        digits_value(digits(n)) == n,
    decreases n,
{
    if n < 10 {
        let s = digits(n);
        assert(s.drop_last() == Seq::<char>::empty());
        assert(digits_value(s.drop_last()) == 0);
    } else {
        digits_write_their_number(n / 10);
        let s = digits(n);
        assert(s.drop_last() == digits(n / 10));
    }
}

/// What is written is read back: the text of a value, taken as a token, is
/// a number, and that number is the value.
pub proof fn decimal_reads_back(v: Value)
    ensures
        literal_value(decimal(v as int)) == Some(v),
{
    let s = decimal(v as int);
    if v < 0 {
        let n = (-v) as nat;
        digits_write_their_number(n);
        assert(s[0] == '-');
        assert(s.skip(1) == digits(n));
    } else {
        let n = v as nat;
        digits_write_their_number(n);
        assert(is_digit(s[0]));
    }
}

} // verus!
