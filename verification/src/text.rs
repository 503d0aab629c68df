//! Character-sequence model of the lenient tokenizer: splitting on ':',
//! trimming whitespace, digit runs and their numeric value, and the
//! case-insensitive cycle-marker search.

use vstd::prelude::*;

verus! {

/// ASCII whitespace, tolerated around fields and after the seconds token.
pub open spec fn is_space(c: char) -> bool {
    c == ' ' || c == '\t' || c == '\n' || c == '\r' || c == '\x0b' || c == '\x0c'
}

/// A decimal digit.
pub open spec fn is_digit(c: char) -> bool {
    ('0' as int) <= (c as int) && (c as int) <= ('9' as int)
}

/// The numeric value of a digit character.
pub open spec fn digit_val(c: char) -> nat {
    ((c as int) - ('0' as int)) as nat
}

/// The digit character for a value below ten.
pub open spec fn digit_char(d: nat) -> char {
    if d == 0 {
        '0'
    } else if d == 1 {
        '1'
    } else if d == 2 {
        '2'
    } else if d == 3 {
        '3'
    } else if d == 4 {
        '4'
    } else if d == 5 {
        '5'
    } else if d == 6 {
        '6'
    } else if d == 7 {
        '7'
    } else if d == 8 {
        '8'
    } else {
        '9'
    }
}

/// A number below one hundred written as exactly two decimal digits.
pub open spec fn two_digits(n: nat) -> Seq<char> {
    seq![digit_char(n / 10), digit_char(n % 10)]
}

/// The segments that splitting on ':' yields: one more segment than there
/// are colons, in order, each free of colons.
pub open spec fn split_colon(s: Seq<char>) -> Seq<Seq<char>>
    decreases s.len(),
{
    if s.len() == 0 {
        seq![Seq::<char>::empty()]
    } else {
        let done = split_colon(s.drop_last());
        if s.last() == ':' {
            done.push(Seq::<char>::empty())
        } else {
            done.update(done.len() - 1, done.last().push(s.last()))
        }
    }
}

pub proof fn lemma_split_colon_nonempty(s: Seq<char>)
    ensures
        split_colon(s).len() >= 1,
    decreases s.len(),
{
    if s.len() > 0 {
        lemma_split_colon_nonempty(s.drop_last());
    }
}

/// The sequence without its leading whitespace.
pub open spec fn trim_start(s: Seq<char>) -> Seq<char>
    decreases s.len(),
{
    if s.len() > 0 && is_space(s[0]) {
        trim_start(s.drop_first())
    } else {
        s
    }
}

/// The sequence without its trailing whitespace.
pub open spec fn trim_end(s: Seq<char>) -> Seq<char>
    decreases s.len(),
{
    if s.len() > 0 && is_space(s.last()) {
        trim_end(s.drop_last())
    } else {
        s
    }
}

/// The sequence without leading and trailing whitespace.
pub open spec fn trim(s: Seq<char>) -> Seq<char> {
    trim_end(trim_start(s))
}

/// Whether some character is not a digit.
pub open spec fn has_non_digit(s: Seq<char>) -> bool {
    exists|i: int| 0 <= i < s.len() && !is_digit(#[trigger] s[i])
}

/// The value of a digit run read in base ten.
pub open spec fn digits_val(s: Seq<char>) -> nat
    decreases s.len(),
{
    if s.len() == 0 {
        0
    } else {
        digits_val(s.drop_last()) * 10 + digit_val(s.last())
    }
}

/// What parsing a field as an unsigned byte yields: the base-ten value of a
/// non-empty all-digit run, if that value fits; nothing otherwise.
pub open spec fn spec_parse_u8(s: Seq<char>) -> Option<u8> {
    if s.len() > 0 && !has_non_digit(s) && digits_val(s) <= 255 {
        Some(digits_val(s) as u8)
    } else {
        None
    }
}

/// The length of the leading run of non-whitespace characters.
pub open spec fn leading_run(s: Seq<char>) -> int
    decreases s.len(),
{
    if s.len() == 0 || is_space(s[0]) {
        0
    } else {
        1 + leading_run(s.drop_first())
    }
}

/// The first whitespace-delimited token of a sequence with no leading
/// whitespace; empty exactly when the sequence is empty.
pub open spec fn first_token(s: Seq<char>) -> Seq<char> {
    s.subrange(0, leading_run(s))
}

/// An ASCII lowercase letter mapped to its uppercase form; anything else
/// kept as it is.
pub open spec fn upper(c: char) -> char {
    if ('a' as int) <= (c as int) && (c as int) <= ('z' as int) {
        ((c as int) - 32) as char
    } else {
        c
    }
}

/// Whether the sequence, uppercased, holds the two-character pattern
/// `c0 c1` somewhere as a substring.
pub open spec fn contains_upper(s: Seq<char>, c0: char, c1: char) -> bool {
    exists|i: int|
        0 <= i && i + 2 <= s.len() && upper(#[trigger] s[i]) == c0 && upper(s[i + 1]) == c1
}

/// No character of the sequence is a ':' separator.
pub open spec fn colon_free(s: Seq<char>) -> bool {
    forall|i: int| 0 <= i < s.len() ==> #[trigger] s[i] != ':'
}

/// Appending colon-free text only extends the final segment.
pub proof fn lemma_split_colon_append_free(x: Seq<char>, t: Seq<char>)
    requires
        colon_free(t),
    ensures
        split_colon(x + t) == split_colon(x).update(
            split_colon(x).len() - 1,
            split_colon(x).last() + t,
        ),
    decreases t.len(),
{
    lemma_split_colon_nonempty(x);
    let s = split_colon(x);
    if t.len() == 0 {
        assert(x + t =~= x);
        assert(s.last() + t =~= s.last());
        assert(s.update(s.len() - 1, s.last() + t) =~= s);
    } else {
        let t0 = t.drop_last();
        let c = t.last();
        assert(colon_free(t0));
        assert(c != ':');
        lemma_split_colon_append_free(x, t0);
        let s1 = split_colon(x + t0);
        assert((x + t).drop_last() =~= x + t0);
        assert(s1.last() == s.last() + t0);
        assert(split_colon(x + t) == s1.update(s1.len() - 1, s1.last().push(c)));
        assert((s.last() + t0).push(c) =~= s.last() + t);
        assert(s1.update(s1.len() - 1, s1.last().push(c)) =~= s.update(s.len() - 1, s.last() + t));
    }
}

/// A colon-free sequence is a single segment.
pub proof fn lemma_split_colon_single(a: Seq<char>)
    requires
        colon_free(a),
    ensures
        split_colon(a) == seq![a],
{
    lemma_split_colon_append_free(Seq::<char>::empty(), a);
    assert(Seq::<char>::empty() + a =~= a);
    assert(seq![Seq::<char>::empty()].update(0, Seq::<char>::empty() + a) =~= seq![a]);
}

/// Splitting text of the shape `a:b:c`, with colon-free pieces, yields
/// exactly those three segments.
pub proof fn lemma_split_colon_three(a: Seq<char>, b: Seq<char>, c: Seq<char>)
    requires
        colon_free(a),
        colon_free(b),
        colon_free(c),
    ensures
        split_colon(a + seq![':'] + b + seq![':'] + c) == seq![a, b, c],
{
    lemma_split_colon_single(a);
    let s1 = a + seq![':'];
    assert(s1.drop_last() =~= a);
    assert(split_colon(s1) == seq![a].push(Seq::<char>::empty()));
    lemma_split_colon_append_free(s1, b);
    assert(seq![a].push(Seq::<char>::empty()).last() == Seq::<char>::empty());
    assert(Seq::<char>::empty() + b =~= b);
    assert(seq![a].push(Seq::<char>::empty()).update(1, Seq::<char>::empty() + b) =~= seq![a, b]);
    let s2 = s1 + b;
    let s3 = s2 + seq![':'];
    assert(s3.drop_last() =~= s2);
    assert(split_colon(s3) == seq![a, b].push(Seq::<char>::empty()));
    lemma_split_colon_append_free(s3, c);
    assert(Seq::<char>::empty() + c =~= c);
    assert(seq![a, b].push(Seq::<char>::empty()).update(2, Seq::<char>::empty() + c) =~= seq![
        a,
        b,
        c,
    ]);
    assert(s3 + c =~= a + seq![':'] + b + seq![':'] + c);
}

/// Trimming does nothing to a sequence whose ends are not whitespace.
pub proof fn lemma_trim_id(s: Seq<char>)
    requires
        s.len() > 0,
        !is_space(s[0]),
        !is_space(s.last()),
    ensures
        trim(s) == s,
{
}

/// The character of a digit value is a digit and reads back as that value.
pub proof fn lemma_digit_char(d: nat)
    requires
        d < 10,
    ensures
        ('0' as int) <= digit_char(d) as int <= ('9' as int),
        is_digit(digit_char(d)),
        digit_val(digit_char(d)) == d,
        !is_space(digit_char(d)),
        digit_char(d) != ':',
        upper(digit_char(d)) == digit_char(d),
{
}

/// A two-digit rendering is a digit run that reads back as its value.
pub proof fn lemma_two_digits_parse(n: nat)
    requires
        n < 100,
    ensures
        two_digits(n).len() == 2,
        !has_non_digit(two_digits(n)),
        spec_parse_u8(two_digits(n)) == Some((n as u8)),
{
    lemma_digit_char(n / 10);
    lemma_digit_char(n % 10);
    let td = two_digits(n);
    assert(forall|i: int| 0 <= i < td.len() ==> is_digit(#[trigger] td[i])) by {
        assert(td[0] == digit_char(n / 10));
        assert(td[1] == digit_char(n % 10));
    }
    assert(td.drop_last() =~= seq![digit_char(n / 10)]);
    assert(seq![digit_char(n / 10)].drop_last() =~= Seq::<char>::empty());
    assert(digits_val(Seq::<char>::empty()) == 0);
    assert(digits_val(seq![digit_char(n / 10)]) == digit_val(digit_char(n / 10)));
    assert(td.last() == digit_char(n % 10));
    assert(digits_val(td) == (n / 10) * 10 + n % 10);
    assert((n / 10) * 10 + n % 10 == n) by {
        vstd::arithmetic::div_mod::lemma_fundamental_div_mod(n as int, 10);
    }
}

/// The characters of a string slice, gathered into a vector.
pub fn chars_of(input: &str) -> (r: Vec<char>)
    ensures
        r@ == input@,
{
    let n = input.unicode_len();
    let mut r: Vec<char> = Vec::new();
    let mut i: usize = 0;
    while i < n
        invariant
            i <= n,
            n == input@.len(),
            r@ == input@.subrange(0, i as int),
        decreases n - i,
    {
        r.push(input.get_char(i));
        i += 1;
        proof {
            assert(r@ =~= input@.subrange(0, i as int));
        }
    }
    proof {
        assert(r@ =~= input@);
    }
    r
}

/// Decides `is_space`.
pub fn is_space_char(c: char) -> (b: bool)
    ensures
        b == is_space(c),
{
    c == ' ' || c == '\t' || c == '\n' || c == '\r' || c == '\x0b' || c == '\x0c'
}

/// Whitespace removed from both ends, as `trim` describes.
pub fn trim_chars(s: &Vec<char>) -> (r: Vec<char>)
    ensures
        r@ == trim(s@),
{
    let len = s.len();
    let mut lo: usize = 0;
    proof {
        assert(s@.skip(0) =~= s@);
    }
    while lo < len && is_space_char(s[lo])
        invariant
            lo <= len,
            len == s@.len(),
            trim_start(s@) == trim_start(s@.skip(lo as int)),
        decreases len - lo,
    {
        proof {
            assert(s@.skip(lo as int).drop_first() =~= s@.skip(lo as int + 1));
        }
        lo += 1;
    }
    proof {
        if lo == len {
            assert(s@.skip(lo as int) =~= Seq::<char>::empty());
        }
        assert(trim_start(s@) == s@.skip(lo as int));
    }
    let mut hi: usize = len;
    while hi > lo && is_space_char(s[hi - 1])
        invariant
            lo <= hi <= len,
            len == s@.len(),
            trim_start(s@) == s@.skip(lo as int),
            trim_end(s@.skip(lo as int)) == trim_end(s@.subrange(lo as int, hi as int)),
        decreases hi,
    {
        proof {
            assert(s@.subrange(lo as int, hi as int).drop_last() =~= s@.subrange(
                lo as int,
                hi as int - 1,
            ));
        }
        hi -= 1;
    }
    proof {
        assert(trim(s@) == s@.subrange(lo as int, hi as int));
    }
    let mut r: Vec<char> = Vec::new();
    let mut j: usize = lo;
    while j < hi
        invariant
            lo <= j <= hi <= len,
            len == s@.len(),
            r@ == s@.subrange(lo as int, j as int),
            trim(s@) == s@.subrange(lo as int, hi as int),
        decreases hi - j,
    {
        r.push(s[j]);
        j += 1;
        proof {
            assert(r@ =~= s@.subrange(lo as int, j as int));
        }
    }
    r
}

/// The ':' -separated segments of the character vector, as `split_colon`
/// describes them.
pub fn split_on_colon(s: &Vec<char>) -> (segs: Vec<Vec<char>>)
    ensures
        segs.deep_view() == split_colon(s@),
{
    let mut segs: Vec<Vec<char>> = Vec::new();
    let mut cur: Vec<char> = Vec::new();
    let mut i: usize = 0;
    proof {
        assert(s@.subrange(0, 0) =~= Seq::<char>::empty());
        assert(segs.deep_view().push(cur@) =~~= split_colon(s@.subrange(0, 0)));
    }
    while i < s.len()
        invariant
            i <= s@.len(),
            segs.deep_view().push(cur@) == split_colon(s@.subrange(0, i as int)),
        decreases s@.len() - i,
    {
        let ghost prefix = s@.subrange(0, i as int);
        let ghost longer = s@.subrange(0, i as int + 1);
        proof {
            assert(longer.drop_last() =~= prefix);
            assert(longer.last() == s@[i as int]);
        }
        let c = s[i];
        if c == ':' {
            let done = cur;
            segs.push(done);
            cur = Vec::new();
            proof {
                assert(segs.deep_view().push(cur@) =~~= split_colon(longer));
            }
        } else {
            cur.push(c);
            proof {
                let before = split_colon(prefix);
                assert(split_colon(longer) == before.update(
                    before.len() - 1,
                    before.last().push(c),
                ));
                assert(segs.deep_view().push(cur@) =~~= split_colon(longer));
            }
        }
        i += 1;
    }
    proof {
        assert(s@.subrange(0, s@.len() as int) =~= s@);
    }
    segs.push(cur);
    proof {
        assert(segs.deep_view() =~~= split_colon(s@));
    }
    segs
}

/// Whether any character of the segment fails the digit test; true means
/// the segment is expected to carry a cycle marker.
pub fn has_no_numerics(s: &Vec<char>) -> (b: bool)
    ensures
        b == has_non_digit(s@),
{
    let mut i: usize = 0;
    while i < s.len()
        invariant
            i <= s@.len(),
            forall|k: int| 0 <= k < i ==> is_digit(#[trigger] s@[k]),
        decreases s@.len() - i,
    {
        let c = s[i];
        if c < '0' || c > '9' {
            proof {
                assert(!is_digit(s@[i as int]));
            }
            return true;
        }
        i += 1;
    }
    false
}

proof fn lemma_digits_val_prefix(s: Seq<char>, i: int)
    requires
        0 <= i <= s.len(),
    ensures
        digits_val(s.subrange(0, i)) <= digits_val(s),
    decreases s.len() - i,
{
    if i == s.len() {
        assert(s.subrange(0, i) =~= s);
    } else {
        lemma_digits_val_prefix(s, i + 1);
        assert(s.subrange(0, i + 1).drop_last() =~= s.subrange(0, i));
    }
}

/// The numeric reading of a field, as `spec_parse_u8` describes it.
pub fn parse_u8_chars(s: &Vec<char>) -> (r: Option<u8>)
    ensures
        r == spec_parse_u8(s@),
{
    if s.len() == 0 {
        return None;
    }
    let mut i: usize = 0;
    let mut acc: u16 = 0;
    proof {
        assert(s@.subrange(0, 0) =~= Seq::<char>::empty());
    }
    while i < s.len()
        invariant
            i <= s@.len(),
            0 < s@.len(),
            acc <= 255,
            forall|k: int| 0 <= k < i ==> is_digit(#[trigger] s@[k]),
            acc as nat == digits_val(s@.subrange(0, i as int)),
        decreases s@.len() - i,
    {
        let c = s[i];
        if c < '0' || c > '9' {
            proof {
                assert(!is_digit(s@[i as int]));
            }
            return None;
        }
        let cv = c as u32;
        let d: u16 = (cv - 48) as u16;
        let next: u16 = acc * 10 + d;
        proof {
            assert(s@.subrange(0, i as int + 1).drop_last() =~= s@.subrange(0, i as int));
            assert(digit_val(s@[i as int]) == d as nat);
        }
        if next > 255 {
            proof {
                if !has_non_digit(s@) {
                    lemma_digits_val_prefix(s@, i as int + 1);
                }
            }
            return None;
        }
        acc = next;
        i += 1;
    }
    proof {
        assert(s@.subrange(0, s@.len() as int) =~= s@);
    }
    Some(acc as u8)
}

/// The leading non-whitespace token, as `first_token` describes it.
pub fn first_token_chars(s: &Vec<char>) -> (r: Vec<char>)
    ensures
        r@ == first_token(s@),
{
    let len = s.len();
    let mut j: usize = 0;
    proof {
        assert(s@.skip(0) =~= s@);
    }
    while j < len && !is_space_char(s[j])
        invariant
            j <= len,
            len == s@.len(),
            leading_run(s@) == j + leading_run(s@.skip(j as int)),
        decreases len - j,
    {
        proof {
            assert(s@.skip(j as int).drop_first() =~= s@.skip(j as int + 1));
        }
        j += 1;
    }
    proof {
        if j == len {
            assert(s@.skip(j as int) =~= Seq::<char>::empty());
        }
        assert(leading_run(s@) == j as int);
    }
    let mut r: Vec<char> = Vec::new();
    let mut k: usize = 0;
    while k < j
        invariant
            k <= j <= len,
            len == s@.len(),
            r@ == s@.subrange(0, k as int),
        decreases j - k,
    {
        r.push(s[k]);
        k += 1;
        proof {
            assert(r@ =~= s@.subrange(0, k as int));
        }
    }
    r
}

/// Whether the character, uppercased, is the given uppercase letter.
pub fn upper_matches(c: char, u: char) -> (b: bool)
    ensures
        b == (upper(c) == u),
{
    let cv = c as u32;
    if 97 <= cv && cv <= 122 {
        let raised = (cv - 32) as u8;
        let rc = raised as char;
        proof {
            assert(rc as int == c as int - 32);
            assert(upper(c) == rc);
        }
        rc == u
    } else {
        c == u
    }
}

/// Scan for the two-character pattern `c0 c1` in the uppercased segment,
/// as `contains_upper` describes it.
pub fn contains_marker(s: &Vec<char>, c0: char, c1: char) -> (b: bool)
    ensures
        b == contains_upper(s@, c0, c1),
{
    if s.len() < 2 {
        return false;
    }
    let last_start = s.len() - 1;
    let mut i: usize = 0;
    while i < last_start
        invariant
            i <= last_start,
            last_start == s@.len() - 1,
            forall|k: int|
                0 <= k < i ==> !(upper(#[trigger] s@[k]) == c0 && upper(s@[k + 1]) == c1),
        decreases last_start - i,
    {
        if upper_matches(s[i], c0) && upper_matches(s[i + 1], c1) {
            proof {
                assert(upper(s@[i as int]) == c0 && upper(s@[i as int + 1]) == c1);
            }
            return true;
        }
        i += 1;
    }
    false
}

} // verus!
