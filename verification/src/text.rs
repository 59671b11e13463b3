//! Text helpers shared by the other modules: characters, UTF-8 offsets and
//! decimal numbers.

use vstd::prelude::*;
use vstd::utf8::*;

verus! {

/// The error of `std::str::from_utf8`, carried through and never inspected.
#[verifier::external_type_specification]
#[verifier::external_body]
pub struct ExUtf8Error(core::str::Utf8Error);

/// `std::str::from_utf8` accepts exactly the well-formed UTF-8 byte sequences
/// and returns the text they encode.
pub assume_specification[ core::str::from_utf8 ](v: &[u8]) -> (r: Result<&str, core::str::Utf8Error>)
    ensures
        r is Ok <==> valid_utf8(v@),
        r matches Ok(s) ==> s@ == decode_utf8(v@),
;

/// `String::push` appends one character.
pub assume_specification[ String::push ](s: &mut String, c: char)
    ensures
        final(s)@ == old(s)@.push(c),
;

/// The characters that have Unicode's `White_Space` property.
pub open spec fn is_white_space(c: char) -> bool {
    let u = c as u32;
    ||| 0x09 <= u <= 0x0D
    ||| u == 0x20
    ||| u == 0x85
    ||| u == 0xA0
    ||| u == 0x1680
    ||| 0x2000 <= u <= 0x200A
    ||| u == 0x2028
    ||| u == 0x2029
    ||| u == 0x202F
    ||| u == 0x205F
    ||| u == 0x3000
}

/// `char::is_whitespace` tests for Unicode's `White_Space` property, whose
/// members `is_white_space` lists.
pub assume_specification[ char::is_whitespace ](c: char) -> (r: bool)
    ensures
        r == is_white_space(c),
;

/// Start of the longest run of characters that ends at `end` and whose
/// members are all whitespace (`white`) or all something else.
pub open spec fn run_start(text: Seq<char>, end: int, white: bool) -> int
    decreases end,
{
    if 0 < end <= text.len() && is_white_space(text[end - 1]) == white {
        run_start(text, end - 1, white)
    } else {
        end
    }
}

/// A run starts at or before its end.
pub proof fn run_start_bounds(text: Seq<char>, end: int, white: bool)
    requires
        0 <= end,
    ensures
        0 <= run_start(text, end, white) <= end,
    decreases end,
{
    if 0 < end <= text.len() && is_white_space(text[end - 1]) == white {
        run_start_bounds(text, end - 1, white);
    }
}

/// A run holds nothing but its kind of characters, and the character before it
/// is of the other kind.
pub proof fn run_start_is_maximal(text: Seq<char>, end: int, white: bool)
    requires
        0 <= end <= text.len(),
    ensures
        ({
            let start = run_start(text, end, white);
            &&& 0 <= start <= end
            &&& forall|i: int|
                start <= i < end ==> is_white_space(#[trigger] text[i]) == white
            &&& start == 0 || is_white_space(text[start - 1]) != white
        }),
    decreases end,
{
    if 0 < end && is_white_space(text[end - 1]) == white {
        run_start_is_maximal(text, end - 1, white);
    }
}

/// Index of the first character at or after `i` that is no whitespace.
pub open spec fn skip_white(s: Seq<char>, i: int) -> int
    decreases s.len() - i,
{
    if 0 <= i < s.len() && is_white_space(s[i]) {
        skip_white(s, i + 1)
    } else {
        i
    }
}

/// `s` without the whitespace at both ends.
pub open spec fn trimmed(s: Seq<char>) -> Seq<char> {
    let from = skip_white(s, 0);
    if from >= s.len() {
        Seq::empty()
    } else {
        s.subrange(from, run_start(s, s.len() as int, true))
    }
}

proof fn skip_white_skips(s: Seq<char>, i: int)
    requires
        0 <= i <= s.len(),
    ensures
        ({
            let to = skip_white(s, i);
            &&& i <= to <= s.len()
            &&& forall|j: int| i <= j < to ==> is_white_space(#[trigger] s[j])
            &&& to == s.len() || !is_white_space(s[to])
        }),
    decreases s.len() - i,
{
    if i < s.len() && is_white_space(s[i]) {
        skip_white_skips(s, i + 1);
    }
}

/// Trimming takes whitespace off both ends and nothing else: what is left
/// begins and ends with something else, or is empty.
pub proof fn trimming_takes_outer_whitespace(s: Seq<char>)
    ensures
        trimmed(s).len() > 0 ==> !is_white_space(trimmed(s)[0]) && !is_white_space(
            trimmed(s).last(),
        ),
        exists|from: int, to: int|
            0 <= from <= to <= s.len() && #[trigger] s.subrange(from, to) == trimmed(s) && (forall|
                i: int,
            |
                0 <= i < from || to <= i < s.len() ==> is_white_space(#[trigger] s[i])),
{
    skip_white_skips(s, 0);
    run_start_is_maximal(s, s.len() as int, true);
    let from = skip_white(s, 0);
    let to = run_start(s, s.len() as int, true);
    if from >= s.len() {
        assert(s.subrange(0, 0) =~= trimmed(s));
        assert(s.subrange(0, 0) == trimmed(s));
    } else {
        assert(from < to) by {
            if to <= from {
                assert(is_white_space(s[from]));
            }
        }
        assert(s.subrange(from, to) == trimmed(s));
        assert(trimmed(s)[0] == s[from]);
        assert(trimmed(s).last() == s[to - 1]);
    }
}

/// Whether `from..to` is one line of `s`, without its line feed.
pub open spec fn is_line(s: Seq<char>, from: int, to: int) -> bool {
    &&& 0 <= from <= to <= s.len()
    &&& from == 0 || s[from - 1] == '\n'
    &&& to == s.len() || s[to] == '\n'
    &&& forall|i: int| from <= i < to ==> s[i] != '\n'
}

/// Index of the first character after the last line feed of `s`.
pub open spec fn last_line_start(s: Seq<char>) -> int
    decreases s.len(),
{
    if s.len() == 0 {
        0
    } else if s.last() == '\n' {
        s.len() as int
    } else {
        last_line_start(s.drop_last())
    }
}

/// The last line starts after a line feed or at the start of the text, and
/// holds no line feed.
pub proof fn last_line_start_props(s: Seq<char>)
    ensures
        0 <= last_line_start(s) <= s.len(),
        last_line_start(s) == 0 || s[last_line_start(s) - 1] == '\n',
        forall|i: int| last_line_start(s) <= i < s.len() ==> s[i] != '\n',
    decreases s.len(),
{
    if s.len() > 0 && s.last() != '\n' {
        last_line_start_props(s.drop_last());
        let k = last_line_start(s);
        assert forall|i: int| k <= i < s.len() implies s[i] != '\n' by {
            if i < s.len() - 1 {
                assert(s.drop_last()[i] == s[i]);
            }
        }
        if k > 0 {
            assert(s.drop_last()[k - 1] == s[k - 1]);
        }
    }
}

/// Where the last line of `chars` starts.
pub fn last_line_offset(chars: &[char]) -> (r: usize)
    ensures
        r == last_line_start(chars@),
{
    let mut k: usize = chars.len();
    proof {
        assert(chars@.take(k as int) =~= chars@);
    }
    while k > 0 && chars[k - 1] != '\n'
        invariant
            k <= chars@.len(),
            last_line_start(chars@) == last_line_start(chars@.take(k as int)),
        decreases k,
    {
        proof {
            assert(chars@.take(k as int).drop_last() =~= chars@.take(k - 1));
        }
        k -= 1;
    }
    proof {
        if k > 0 {
            assert(chars@.take(k as int).last() == '\n');
        }
    }
    k
}

/// The part of `chars` between the whitespace at both ends.
pub fn trim(chars: &[char]) -> (r: Vec<char>)
    ensures
        r@ == trimmed(chars@),
{
    let n: usize = chars.len();
    let mut from: usize = 0;
    while from < n && chars[from].is_whitespace()
        invariant
            n == chars@.len(),
            from <= n,
            skip_white(chars@, 0) == skip_white(chars@, from as int),
        decreases n - from,
    {
        from += 1;
    }
    if from == n {
        return Vec::new();
    }
    let mut to: usize = n;
    while chars[to - 1].is_whitespace()
        invariant
            n == chars@.len(),
            from < to <= n,
            !is_white_space(chars@[from as int]),
            run_start(chars@, n as int, true) == run_start(chars@, to as int, true),
        decreases to,
    {
        to -= 1;
    }
    vstd::slice::slice_to_vec(vstd::slice::slice_subrange(chars, from, to))
}

/// The characters of `s`, in order.
pub fn chars_of(s: &str) -> (r: Vec<char>)
    ensures
        r@ == s@,
{
    let mut v: Vec<char> = Vec::new();
    for c in it: s.chars()
        invariant
            it.seq() == s@,
            v@ == s@.take(it.index() as int),
    {
        v.push(c);
        proof {
            assert(s@.take(it.index() as int + 1) =~= s@.take(it.index() as int).push(c));
        }
    }
    proof {
        assert(s@.take(s@.len() as int) =~= s@);
    }
    v
}

/// Whether `a` and `b` hold the same characters.
pub fn same_text(a: &str, b: &str) -> (r: bool)
    ensures
        r == (a@ == b@),
{
    a.to_owned() == b.to_owned()
}

/// The text made of `chars`.
pub fn string_of(chars: &[char]) -> (r: String)
    ensures
        r@ == chars@,
{
    let mut s = String::new();
    let mut i: usize = 0;
    while i < chars.len()
        invariant
            i <= chars@.len(),
            s@ == chars@.take(i as int),
        decreases chars@.len() - i,
    {
        s.push(chars[i]);
        i += 1;
        proof {
            assert(chars@.take(i as int) =~= chars@.take(i - 1).push(chars@[i - 1]));
        }
    }
    proof {
        assert(chars@.take(i as int) =~= chars@);
    }
    s
}

/// Length of `s` in UTF-8 bytes.
pub open spec fn byte_len(s: Seq<char>) -> nat {
    encode_utf8(s).len()
}

/// The encoding of a concatenation is the concatenation of the encodings.
pub proof fn encode_utf8_concat(a: Seq<char>, b: Seq<char>)
    ensures
        encode_utf8(a + b) == encode_utf8(a) + encode_utf8(b),
        byte_len(a + b) == byte_len(a) + byte_len(b),
    decreases a.len(),
{
    if a.len() == 0 {
        assert(a + b =~= b);
        assert(encode_utf8(a) + encode_utf8(b) =~= encode_utf8(b));
    } else {
        encode_utf8_concat(a.drop_first(), b);
        assert((a + b).drop_first() =~= a.drop_first() + b);
        assert(encode_utf8(a + b) =~= encode_utf8(a) + encode_utf8(b));
    }
}

/// Offsets do not shrink along the text.
pub proof fn byte_len_take(s: Seq<char>, i: int, j: int)
    requires
        0 <= i <= j <= s.len(),
    ensures
        byte_len(s.take(j)) == byte_len(s.take(i)) + byte_len(s.subrange(i, j)),
        encode_utf8(s).subrange(byte_len(s.take(i)) as int, byte_len(s.take(j)) as int)
            == encode_utf8(s.subrange(i, j)),
        byte_len(s.take(j)) <= byte_len(s),
{
    assert(s.take(j) =~= s.take(i) + s.subrange(i, j));
    encode_utf8_concat(s.take(i), s.subrange(i, j));
    assert(s =~= s.take(j) + s.skip(j));
    encode_utf8_concat(s.take(j), s.skip(j));
    assert(encode_utf8(s).subrange(byte_len(s.take(i)) as int, byte_len(s.take(j)) as int)
        =~= encode_utf8(s.subrange(i, j)));
}

/// A character's share of the encoded text.
pub proof fn byte_len_one(c: char)
    ensures
        byte_len(seq![c]) == encode_scalar(c as u32).len(),
        1 <= byte_len(seq![c]) <= 4,
{
    let s = seq![c];
    assert(s.drop_first() =~= Seq::<char>::empty());
    assert(encode_utf8(s.drop_first()) =~= Seq::<u8>::empty());
    assert(encode_utf8(s) =~= encode_scalar(c as u32));
}

/// Number of bytes that `c` takes in UTF-8.
pub fn utf8_width(c: char) -> (r: usize)
    ensures
        r == byte_len(seq![c]),
{
    proof {
        byte_len_one(c);
    }
    let u: u32 = c as u32;
    if u < 0x80 {
        1
    } else if u < 0x800 {
        2
    } else if u < 0x10000 {
        3
    } else {
        4
    }
}

/// The decimal digits of `n` in ASCII, without leading zeros.
pub open spec fn digits(n: nat) -> Seq<u8>
    decreases n,
{
    if n < 10 {
        seq![(48 + n) as u8]
    } else {
        digits(n / 10).push((48 + n % 10) as u8)
    }
}

/// Appends the decimal digits of `n`.
pub fn push_digits(out: &mut Vec<u8>, n: u64)
    ensures
        final(out)@ == old(out)@ + digits(n as nat),
    decreases n,
{
    if n >= 10 {
        push_digits(out, n / 10);
    }
    out.push(48 + (n % 10) as u8);
    proof {
        assert(out@ =~= old(out)@ + digits(n as nat));
    }
}

/// Whether `pat` stands in `s` at `i`.
pub open spec fn stands_at(s: Seq<char>, pat: Seq<char>, i: int) -> bool {
    0 <= i && i + pat.len() <= s.len() && s.subrange(i, i + pat.len()) == pat
}

/// Whether `pat` stands somewhere in `s`.
pub open spec fn has_text(s: Seq<char>, pat: Seq<char>) -> bool {
    exists|i: int| stands_at(s, pat, i)
}

/// Whether `pat` stands in `chars` at `i`.
pub fn text_at(chars: &[char], pat: &[char], i: usize) -> (r: bool)
    ensures
        r == stands_at(chars@, pat@, i as int),
{
    let n: usize = chars.len();
    if i > n || pat.len() > n - i {
        return false;
    }
    let mut k: usize = 0;
    while k < pat.len()
        invariant
            n == chars@.len(),
            k <= pat@.len(),
            i + pat@.len() <= chars@.len(),
            forall|j: int| 0 <= j < k ==> chars@[i + j] == pat@[j],
        decreases pat@.len() - k,
    {
        if chars[i + k] != pat[k] {
            proof {
                assert(chars@.subrange(i as int, i + pat@.len())[k as int] != pat@[k as int]);
            }
            return false;
        }
        k += 1;
    }
    proof {
        assert(chars@.subrange(i as int, i + pat@.len()) =~= pat@);
    }
    true
}

/// Whether `pat` stands somewhere in `chars`.
pub fn contains_text(chars: &[char], pat: &[char]) -> (r: bool)
    ensures
        r == has_text(chars@, pat@),
{
    let mut i: usize = 0;
    while i < chars.len()
        invariant
            i <= chars@.len(),
            forall|j: int| 0 <= j < i ==> !stands_at(chars@, pat@, j),
        decreases chars@.len() - i,
    {
        if text_at(chars, pat, i) {
            return true;
        }
        i += 1;
    }
    let last = text_at(chars, pat, i);
    proof {
        if has_text(chars@, pat@) {
            let j = choose|j: int| stands_at(chars@, pat@, j);
            assert(j <= i);
        }
    }
    last
}

/// The number that decimal digits spell.
pub open spec fn spelled(digits: Seq<u8>) -> int
    decreases digits.len(),
{
    if digits.len() == 0 {
        0
    } else {
        spelled(digits.drop_last()) * 10 + (digits.last() - 48)
    }
}

/// The digits of a number are decimal digits, spell it, and do not begin with
/// a zero but for zero itself.
pub proof fn digits_spell_the_number(n: nat)
    ensures
        spelled(digits(n)) == n,
        digits(n).len() > 0,
        forall|i: int| 0 <= i < digits(n).len() ==> 48 <= (#[trigger] digits(n)[i]) <= 57,
        n > 0 ==> digits(n)[0] != 48,
    decreases n,
{
    if n < 10 {
        let d = digits(n);
        assert(d.drop_last() =~= Seq::<u8>::empty());
        assert(spelled(d.drop_last()) == 0);
    } else {
        digits_spell_the_number(n / 10);
        assert(digits(n).drop_last() =~= digits(n / 10));
    }
}

/// The last line of a text is one of its lines, the one that ends with it.
pub proof fn last_line_is_a_line(s: Seq<char>)
    ensures
        is_line(s, last_line_start(s), s.len() as int),
{
    last_line_start_props(s);
}

/// Lines end at line feeds and nowhere else: a text without one is a single
/// line, and no line holds one.
pub proof fn lines_end_at_line_feeds(s: Seq<char>, from: int, to: int)
    ensures
        (forall|i: int| 0 <= i < s.len() ==> s[i] != '\n') ==> is_line(s, 0, s.len() as int),
        is_line(s, from, to) ==> forall|i: int| from <= i < to ==> s[i] != '\n',
        0 < from <= to <= s.len() && is_line(s, from, to) ==> s[from - 1] == '\n',
        0 <= from <= to < s.len() && is_line(s, from, to) ==> s[to] == '\n',
{
}

/// A text holds what it is put together from, and what it holds can be cut out
/// of it.
pub proof fn texts_hold_their_parts(a: Seq<char>, pat: Seq<char>, b: Seq<char>)
    ensures
        has_text(a + pat + b, pat),
        stands_at(a + pat + b, pat, a.len() as int),
{
    let s = a + pat + b;
    let i = a.len() as int;
    assert(s.subrange(i, i + pat.len()) =~= pat);
    assert(stands_at(s, pat, i));
}

/// What a text holds stands somewhere in it, character by character.
pub proof fn held_text_stands_somewhere(s: Seq<char>, pat: Seq<char>)
    requires
        has_text(s, pat),
    ensures
        exists|i: int|
            0 <= i && i + pat.len() <= s.len() && #[trigger] s.subrange(i, i + pat.len()) == pat,
{
    let i = choose|i: int| stands_at(s, pat, i);
    assert(s.subrange(i, i + pat.len()) == pat);
}

} // verus!
