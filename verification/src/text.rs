//! Character-level text utilities shared by the codec and the importers.
//!
//! Both external feeds are positional, textual formats, so the whole pipeline
//! is built on a small set of exactly specified string operations: splitting
//! on a separator, trimming, ASCII case folding, digit parsing, and
//! conversions between `&str`, `String` and `Vec<char>`.
//!
//! Every character class here is ASCII-scoped, deliberately: characters
//! outside ASCII pass through case folding unchanged and never count as
//! whitespace or digits — what each class holds is exactly what its spec
//! function says.

use vstd::prelude::*;

verus! {

// ---------------------------------------------------------------------------
// Character classes
// ---------------------------------------------------------------------------

/// ASCII decimal digit.
pub open spec fn is_digit(c: char) -> bool {
    '0' <= c && c <= '9'
}

/// ASCII whitespace, the class trimmed from identifiers and name tokens.
pub open spec fn is_space(c: char) -> bool {
    c == ' ' || c == '\t' || c == '\n' || c == '\r' || c == '\u{b}' || c == '\u{c}'
}

/// Numeric value of an ASCII digit.
pub open spec fn digit_val(c: char) -> int {
    c as u32 - '0' as u32
}

/// ASCII upper-casing of one character; anything but a lowercase ASCII
/// letter is left unchanged.
pub open spec fn upper_char(c: char) -> char {
    if 'a' <= c && c <= 'z' {
        ((c as u8) - 32) as char
    } else {
        c
    }
}

/// ASCII lower-casing of one character.
pub open spec fn lower_char(c: char) -> char {
    if 'A' <= c && c <= 'Z' {
        ((c as u8) + 32) as char
    } else {
        c
    }
}

/// ASCII upper-casing, character by character.
pub open spec fn spec_upper(s: Seq<char>) -> Seq<char> {
    Seq::new(s.len(), |i: int| upper_char(s[i]))
}

/// ASCII lower-casing, character by character.
pub open spec fn spec_lower(s: Seq<char>) -> Seq<char> {
    Seq::new(s.len(), |i: int| lower_char(s[i]))
}

// ---------------------------------------------------------------------------
// Digit strings
// ---------------------------------------------------------------------------

pub open spec fn all_digits(s: Seq<char>) -> bool {
    forall|i: int| 0 <= i < s.len() ==> is_digit(#[trigger] s[i])
}

/// Value of a digit string read in base 10.
pub open spec fn digits_val(s: Seq<char>) -> int
    decreases s.len(),
{
    if s.len() == 0 {
        0
    } else {
        digits_val(s.drop_last()) * 10 + digit_val(s.last())
    }
}

/// Powers of ten, for bounding the value of a digit string by its length.
pub open spec fn pow10(n: nat) -> int
    decreases n,
{
    if n == 0 {
        1
    } else {
        10 * pow10((n - 1) as nat)
    }
}

proof fn lemma_pow10_pos(n: nat)
    ensures
        pow10(n) >= 1,
    decreases n,
{
    if n > 0 {
        lemma_pow10_pos((n - 1) as nat);
    }
}

proof fn lemma_pow10_mono(a: nat, b: nat)
    requires
        a <= b,
    ensures
        pow10(a) <= pow10(b),
    decreases b,
{
    if a < b {
        lemma_pow10_mono(a, (b - 1) as nat);
        lemma_pow10_pos((b - 1) as nat);
    }
}

proof fn lemma_pow10_vals()
    ensures
        pow10(4) == 10000,
        pow10(9) == 1000000000,
{
    assert(pow10(0) == 1);
    assert(pow10(1) == 10);
    assert(pow10(2) == 100);
    assert(pow10(3) == 1000);
    assert(pow10(4) == 10000);
    assert(pow10(5) == 100000);
    assert(pow10(6) == 1000000);
    assert(pow10(7) == 10000000);
    assert(pow10(8) == 100000000);
    assert(pow10(9) == 1000000000);
}

/// A digit string of length `n` has a value below `10^n`.
pub proof fn lemma_digits_val_bound(s: Seq<char>)
    requires
        all_digits(s),
    ensures
        0 <= digits_val(s) < pow10(s.len()),
    decreases s.len(),
{
    if s.len() > 0 {
        assert(all_digits(s.drop_last()));
        lemma_digits_val_bound(s.drop_last());
        assert(is_digit(s.last()));
        assert(0 <= digit_val(s.last()) <= 9);
    }
}

/// A digit string of at most nine digits fits comfortably in an `i32`.
pub proof fn lemma_digits_val_bound9(s: Seq<char>)
    requires
        all_digits(s),
        s.len() <= 9,
    ensures
        0 <= digits_val(s) < 1000000000,
{
    lemma_digits_val_bound(s);
    lemma_pow10_mono(s.len(), 9);
    lemma_pow10_vals();
}

/// A digit string of at most four digits stays below ten thousand.
pub proof fn lemma_digits_val_bound4(s: Seq<char>)
    requires
        all_digits(s),
        s.len() <= 4,
    ensures
        0 <= digits_val(s) < 10000,
{
    lemma_digits_val_bound(s);
    lemma_pow10_mono(s.len(), 4);
    lemma_pow10_vals();
}

/// A numeric token: one to nine ASCII digits, read in base 10.  Anything
/// else — empty, signed, non-digit characters, or long enough to overflow —
/// is not a number to this pipeline.
pub open spec fn spec_parse_num(s: Seq<char>) -> Option<i32> {
    if 1 <= s.len() <= 9 && all_digits(s) {
        Some(digits_val(s) as i32)
    } else {
        None
    }
}

/// Parses a numeric token exactly as `spec_parse_num` describes.
pub fn parse_num(s: &Vec<char>) -> (r: Option<i32>)
    ensures
        r == spec_parse_num(s@),
{
    if s.len() < 1 || s.len() > 9 {
        return None;
    }
    let mut val: i64 = 0;
    let mut i: usize = 0;
    while i < s.len()
        invariant
            0 <= i <= s.len(),
            1 <= s.len() <= 9,
            all_digits(s@.take(i as int)),
            val == digits_val(s@.take(i as int)),
            0 <= val < 1000000000,
        decreases s.len() - i,
    {
        let c = s[i];
        if c < '0' || c > '9' {
            assert(!is_digit(s@[i as int]));
            return None;
        }
        proof {
            assert(s@.take(i as int + 1).drop_last() =~= s@.take(i as int));
            assert(s@.take(i as int + 1).last() == s@[i as int]);
        }
        val = val * 10 + (c as u32 as i64 - 48);
        i += 1;
        proof {
            assert(all_digits(s@.take(i as int)));
            lemma_digits_val_bound9(s@.take(i as int));
        }
    }
    proof {
        assert(s@.take(s@.len() as int) =~= s@);
    }
    Some(val as i32)
}

// ---------------------------------------------------------------------------
// Splitting on a separator character
// ---------------------------------------------------------------------------

/// Index of the first occurrence of `sep` in `s`, or `s.len()` if absent.
pub open spec fn first_ix(s: Seq<char>, sep: char) -> int
    decreases s.len(),
{
    if s.len() == 0 {
        0
    } else if s[0] == sep {
        0
    } else {
        1 + first_ix(s.drop_first(), sep)
    }
}

pub proof fn lemma_first_ix_bounds(s: Seq<char>, sep: char)
    ensures
        0 <= first_ix(s, sep) <= s.len(),
        first_ix(s, sep) < s.len() ==> s[first_ix(s, sep)] == sep,
        forall|j: int| 0 <= j < first_ix(s, sep) ==> s[j] != sep,
    decreases s.len(),
{
    if s.len() > 0 && s[0] != sep {
        lemma_first_ix_bounds(s.drop_first(), sep);
        assert forall|j: int| 0 <= j < first_ix(s, sep) implies s[j] != sep by {
            if j > 0 {
                assert(s.drop_first()[j - 1] == s[j]);
            }
        }
    }
}

/// The first occurrence is the smallest: a separator at `i` with none before
/// it pins `first_ix` to `i`.
pub proof fn lemma_first_ix_is(s: Seq<char>, sep: char, i: int)
    requires
        0 <= i < s.len(),
        s[i] == sep,
        forall|j: int| 0 <= j < i ==> s[j] != sep,
    ensures
        first_ix(s, sep) == i,
    decreases s.len(),
{
    if i > 0 {
        lemma_first_ix_is(s.drop_first(), sep, i - 1);
    }
}

pub proof fn lemma_first_ix_none(s: Seq<char>, sep: char)
    requires
        forall|j: int| 0 <= j < s.len() ==> s[j] != sep,
    ensures
        first_ix(s, sep) == s.len(),
    decreases s.len(),
{
    if s.len() > 0 {
        lemma_first_ix_none(s.drop_first(), sep);
    }
}

/// Splitting on a separator, with the semantics of `str::split` for a single
/// `char` pattern: the result always has one token more than there are
/// separators, and the empty string splits into one empty token.
pub open spec fn spec_split(s: Seq<char>, sep: char) -> Seq<Seq<char>>
    decreases s.len(),
    via spec_split_decreases
{
    let i = first_ix(s, sep);
    if i == s.len() {
        seq![s]
    } else {
        seq![s.take(i)] + spec_split(s.skip(i + 1), sep)
    }
}

#[via_fn]
proof fn spec_split_decreases(s: Seq<char>, sep: char) {
    lemma_first_ix_bounds(s, sep);
}

/// Splits `s` on `sep` exactly as `spec_split` describes.
pub fn split_char(s: &Vec<char>, sep: char) -> (r: Vec<Vec<char>>)
    ensures
        r.deep_view() == spec_split(s@, sep),
        r.len() >= 1,
{
    let mut acc: Vec<Vec<char>> = Vec::new();
    let mut cur: Vec<char> = Vec::new();
    let ghost mut tok_start: int = 0int;
    let mut i: usize = 0;
    proof {
        assert(s@.subrange(0int, s@.len() as int) =~= s@);
        assert(acc.deep_view() + spec_split(s@, sep) =~~= spec_split(s@, sep));
    }
    while i < s.len()
        invariant
            0 <= tok_start <= i <= s.len(),
            cur@ == s@.subrange(tok_start, i as int),
            forall|j: int| tok_start <= j < i ==> s@[j] != sep,
            spec_split(s@, sep) == acc.deep_view() + spec_split(
                s@.subrange(tok_start, s@.len() as int),
                sep,
            ),
        decreases s.len() - i,
    {
        let c = s[i];
        if c == sep {
            let ghost rem = s@.subrange(tok_start, s@.len() as int);
            let ghost rem2 = s@.subrange(i as int + 1, s@.len() as int);
            let ghost cur_v = cur@;
            let ghost old_acc = acc.deep_view();
            proof {
                lemma_first_ix_is(rem, sep, i - tok_start);
                assert(rem.take(i - tok_start) =~= cur_v);
                assert(rem.skip(i - tok_start + 1) =~= rem2);
                assert(spec_split(rem, sep) =~~= seq![cur_v] + spec_split(rem2, sep));
            }
            acc.push(cur);
            proof {
                assert(acc.deep_view() =~~= old_acc.push(cur_v));
                assert(old_acc.push(cur_v) + spec_split(rem2, sep) =~~= old_acc + (seq![cur_v]
                    + spec_split(rem2, sep)));
                assert(spec_split(s@, sep) == acc.deep_view() + spec_split(rem2, sep));
            }
            cur = Vec::new();
            proof {
                tok_start = i as int + 1;
                assert(cur@ =~= s@.subrange(tok_start, i as int + 1));
            }
        } else {
            cur.push(c);
            proof {
                assert(cur@ =~= s@.subrange(tok_start, i as int + 1));
            }
        }
        i += 1;
    }
    let ghost rem = s@.subrange(tok_start, s@.len() as int);
    let ghost cur_v = cur@;
    let ghost old_acc = acc.deep_view();
    proof {
        lemma_first_ix_none(rem, sep);
        assert(rem =~= cur_v);
        assert(spec_split(rem, sep) == seq![rem]);
    }
    acc.push(cur);
    proof {
        assert(acc.deep_view() =~~= old_acc.push(cur_v));
        assert(old_acc + seq![cur_v] =~~= old_acc.push(cur_v));
        assert(old_acc + spec_split(rem, sep) =~~= old_acc.push(cur_v));
        assert(acc.deep_view() == spec_split(s@, sep));
    }
    acc
}

/// Index of the first occurrence of a character, as `first_ix` describes.
pub fn find_char(v: &Vec<char>, c: char) -> (r: usize)
    ensures
        r as int == first_ix(v@, c),
        r <= v@.len(),
{
    let mut i: usize = 0;
    while i < v.len()
        invariant
            0 <= i <= v.len(),
            forall|j: int| 0 <= j < i ==> v@[j] != c,
        decreases v.len() - i,
    {
        if v[i] == c {
            proof {
                lemma_first_ix_is(v@, c, i as int);
            }
            return i;
        }
        i += 1;
    }
    proof {
        lemma_first_ix_none(v@, c);
    }
    v.len()
}

/// The characters from `start` to the end.
pub fn suffix_chars(v: &Vec<char>, start: usize) -> (r: Vec<char>)
    requires
        start <= v@.len(),
    ensures
        r@ == v@.skip(start as int),
{
    let mut r: Vec<char> = Vec::new();
    let mut i: usize = start;
    while i < v.len()
        invariant
            start <= i <= v.len(),
            r@ =~= v@.subrange(start as int, i as int),
        decreases v.len() - i,
    {
        r.push(v[i]);
        proof {
            assert(r@ =~= v@.subrange(start as int, i as int + 1));
        }
        i += 1;
    }
    proof {
        assert(v@.subrange(start as int, v@.len() as int) =~= v@.skip(start as int));
    }
    r
}

// ---------------------------------------------------------------------------
// Trimming
// ---------------------------------------------------------------------------

pub open spec fn trim_start(s: Seq<char>) -> Seq<char>
    decreases s.len(),
{
    if s.len() > 0 && is_space(s[0]) {
        trim_start(s.drop_first())
    } else {
        s
    }
}

pub open spec fn trim_end(s: Seq<char>) -> Seq<char>
    decreases s.len(),
{
    if s.len() > 0 && is_space(s.last()) {
        trim_end(s.drop_last())
    } else {
        s
    }
}

/// ASCII whitespace stripped from both ends.
pub open spec fn spec_trim(s: Seq<char>) -> Seq<char> {
    trim_end(trim_start(s))
}

proof fn lemma_trim_start_skip(s: Seq<char>, i: int)
    requires
        0 <= i <= s.len(),
        forall|j: int| 0 <= j < i ==> is_space(s[j]),
    ensures
        trim_start(s) == trim_start(s.skip(i)),
    decreases i,
{
    if i > 0 {
        assert(is_space(s[0]));
        assert(s.drop_first() =~= s.skip(1));
        lemma_trim_start_skip(s.skip(1), i - 1);
        assert(s.skip(1).skip(i - 1) =~= s.skip(i));
    } else {
        assert(s.skip(0) =~= s);
    }
}

proof fn lemma_trim_start_done(s: Seq<char>)
    requires
        s.len() == 0 || !is_space(s[0]),
    ensures
        trim_start(s) == s,
{
}

proof fn lemma_trim_end_take(s: Seq<char>, i: int)
    requires
        0 <= i <= s.len(),
        forall|j: int| i <= j < s.len() ==> is_space(s[j]),
    ensures
        trim_end(s) == trim_end(s.take(i)),
    decreases s.len() - i,
{
    if i < s.len() {
        assert(is_space(s.last()));
        assert(s.drop_last() =~= s.take(s.len() - 1));
        lemma_trim_end_take(s.take(s.len() - 1), i);
        assert(s.take(s.len() - 1).take(i) =~= s.take(i));
    } else {
        assert(s.take(i) =~= s);
    }
}

fn exec_is_space(c: char) -> (r: bool)
    ensures
        r == is_space(c),
{
    c == ' ' || c == '\t' || c == '\n' || c == '\r' || c == '\u{b}' || c == '\u{c}'
}

/// Trims ASCII whitespace from both ends, exactly as `spec_trim` describes.
pub fn trim_chars(s: &Vec<char>) -> (r: Vec<char>)
    ensures
        r@ == spec_trim(s@),
{
    let mut start: usize = 0;
    while start < s.len() && exec_is_space(s[start])
        invariant
            0 <= start <= s.len(),
            forall|j: int| 0 <= j < start ==> is_space(s@[j]),
        decreases s.len() - start,
    {
        start += 1;
    }
    proof {
        lemma_trim_start_skip(s@, start as int);
        if start < s.len() {
            assert(!is_space(s@.skip(start as int)[0]));
        }
        lemma_trim_start_done(s@.skip(start as int));
    }
    // trim_start(s@) == s@.skip(start)
    let mut end: usize = s.len();
    while end > start && exec_is_space(s[end - 1])
        invariant
            start <= end <= s.len(),
            forall|j: int| end <= j < s.len() ==> is_space(s@[j]),
        decreases end,
    {
        end -= 1;
    }
    proof {
        let st = s@.skip(start as int);
        lemma_trim_end_take(st, end - start);
        let tk = st.take(end - start);
        if end > start {
            assert(tk.last() == s@[end - 1]);
            assert(!is_space(tk.last()));
        }
        assert(trim_end(tk) == tk);
        assert(spec_trim(s@) == tk);
    }
    let mut r: Vec<char> = Vec::new();
    let mut i: usize = start;
    while i < end
        invariant
            start <= i <= end <= s.len(),
            r@ == s@.subrange(start as int, i as int),
        decreases end - i,
    {
        r.push(s[i]);
        proof {
            assert(r@ =~= s@.subrange(start as int, i as int + 1));
        }
        i += 1;
    }
    proof {
        assert(s@.subrange(start as int, end as int) =~= s@.skip(start as int).take(
            end - start,
        ));
    }
    r
}

/// Trims ASCII whitespace from the end only, exactly as `trim_end`
/// describes.
pub fn trim_end_chars(s: &Vec<char>) -> (r: Vec<char>)
    ensures
        r@ == trim_end(s@),
{
    let mut end: usize = s.len();
    while end > 0 && exec_is_space(s[end - 1])
        invariant
            0 <= end <= s.len(),
            forall|j: int| end <= j < s.len() ==> is_space(s@[j]),
        decreases end,
    {
        end -= 1;
    }
    proof {
        lemma_trim_end_take(s@, end as int);
        let tk = s@.take(end as int);
        if end > 0 {
            assert(tk.last() == s@[end - 1]);
            assert(!is_space(tk.last()));
        }
        assert(trim_end(tk) == tk);
    }
    prefix_chars(s, end)
}

// ---------------------------------------------------------------------------
// Case folding
// ---------------------------------------------------------------------------

fn exec_upper_char(c: char) -> (r: char)
    ensures
        r == upper_char(c),
{
    if 'a' <= c && c <= 'z' {
        ((c as u8) - 32) as char
    } else {
        c
    }
}

fn exec_lower_char(c: char) -> (r: char)
    ensures
        r == lower_char(c),
{
    if 'A' <= c && c <= 'Z' {
        ((c as u8) + 32) as char
    } else {
        c
    }
}

/// ASCII upper-casing of a character vector.
pub fn upper_chars(s: &Vec<char>) -> (r: Vec<char>)
    ensures
        r@ == spec_upper(s@),
{
    let mut r: Vec<char> = Vec::new();
    let mut i: usize = 0;
    while i < s.len()
        invariant
            0 <= i <= s.len(),
            r@ =~= spec_upper(s@).take(i as int),
        decreases s.len() - i,
    {
        r.push(exec_upper_char(s[i]));
        i += 1;
        proof {
            assert(r@ =~= spec_upper(s@).take(i as int));
        }
    }
    proof {
        assert(spec_upper(s@).take(s@.len() as int) =~= spec_upper(s@));
    }
    r
}

/// ASCII lower-casing of a character vector.
pub fn lower_chars(s: &Vec<char>) -> (r: Vec<char>)
    ensures
        r@ == spec_lower(s@),
{
    let mut r: Vec<char> = Vec::new();
    let mut i: usize = 0;
    while i < s.len()
        invariant
            0 <= i <= s.len(),
            r@ =~= spec_lower(s@).take(i as int),
        decreases s.len() - i,
    {
        r.push(exec_lower_char(s[i]));
        i += 1;
        proof {
            assert(r@ =~= spec_lower(s@).take(i as int));
        }
    }
    proof {
        assert(spec_lower(s@).take(s@.len() as int) =~= spec_lower(s@));
    }
    r
}

// ---------------------------------------------------------------------------
// Conversions between &str, String and Vec<char>
// ---------------------------------------------------------------------------

/// The characters of a string slice, in order.
pub fn chars_of(s: &str) -> (r: Vec<char>)
    ensures
        r@ == s@,
{
    let n = s.unicode_len();
    let mut r: Vec<char> = Vec::new();
    let mut i: usize = 0;
    while i < n
        invariant
            0 <= i <= n,
            n == s@.len(),
            r@ =~= s@.take(i as int),
        decreases n - i,
    {
        r.push(s.get_char(i));
        i += 1;
        proof {
            assert(r@ =~= s@.take(i as int));
        }
    }
    proof {
        assert(s@.take(s@.len() as int) =~= s@);
    }
    r
}

/// Relies on `String::push`: appends exactly one character at the end.
#[verifier::external_body]
fn push_char(s: &mut String, c: char)
    ensures
        final(s)@ == old(s)@.push(c),
{
    s.push(c)
}

/// A `String` holding exactly the given characters.
pub fn string_of(v: &Vec<char>) -> (r: String)
    ensures
        r@ == v@,
{
    let mut r = String::new();
    let mut i: usize = 0;
    while i < v.len()
        invariant
            0 <= i <= v.len(),
            r@ =~= v@.take(i as int),
        decreases v.len() - i,
    {
        push_char(&mut r, v[i]);
        i += 1;
        proof {
            assert(r@ =~= v@.take(i as int));
        }
    }
    proof {
        assert(v@.take(v@.len() as int) =~= v@);
    }
    r
}

/// The first `n` characters of a vector.
pub fn prefix_chars(v: &Vec<char>, n: usize) -> (r: Vec<char>)
    requires
        n <= v@.len(),
    ensures
        r@ == v@.take(n as int),
{
    let mut r: Vec<char> = Vec::new();
    let mut i: usize = 0;
    while i < n
        invariant
            0 <= i <= n <= v@.len(),
            r@ =~= v@.take(i as int),
        decreases n - i,
    {
        r.push(v[i]);
        proof {
            assert(r@ =~= v@.take(i as int + 1));
        }
        i += 1;
    }
    r
}

/// Character-wise equality of two vectors.
pub fn eq_chars(a: &Vec<char>, b: &Vec<char>) -> (r: bool)
    ensures
        r == (a@ == b@),
{
    if a.len() != b.len() {
        proof {
            assert(a@ != b@);
        }
        return false;
    }
    let mut i: usize = 0;
    while i < a.len()
        invariant
            0 <= i <= a.len(),
            a.len() == b.len(),
            forall|j: int| 0 <= j < i ==> a@[j] == b@[j],
        decreases a.len() - i,
    {
        if a[i] != b[i] {
            return false;
        }
        i += 1;
    }
    proof {
        assert(a@ =~= b@);
    }
    true
}

/// Character-wise equality of two string slices.
pub fn eq_str(a: &str, b: &str) -> (r: bool)
    ensures
        r == (a@ == b@),
{
    let av = chars_of(a);
    let bv = chars_of(b);
    eq_chars(&av, &bv)
}

} // verus!
