//! Reading the short strings a configuration holds: colours, alignments and font
//! families; the blank test for quotes, and the line that names an author.

use vstd::prelude::*;

verus! {

// ---------------------------------------------------------------------------
// White space
// ---------------------------------------------------------------------------

/// The characters with the Unicode property `White_Space`.
pub open spec fn is_white_space(c: char) -> bool {
    let u = c as u32;
    ||| 0x9 <= u <= 0xd
    ||| u == 0x20
    ||| u == 0x85
    ||| u == 0xa0
    ||| u == 0x1680
    ||| 0x2000 <= u <= 0x200a
    ||| u == 0x2028
    ||| u == 0x2029
    ||| u == 0x202f
    ||| u == 0x205f
    ||| u == 0x3000
}

/// Whether there is nothing to read in `s`: every character is white space.
pub open spec fn all_white_space(s: Seq<char>) -> bool {
    forall|i: int| 0 <= i < s.len() ==> is_white_space(#[trigger] s[i])
}

/// `s` without the white space at its start and its end.
pub open spec fn trimmed(s: Seq<char>) -> Seq<char>
    decreases s.len(),
{
    if s.len() > 0 && is_white_space(s.first()) {
        trimmed(s.drop_first())
    } else if s.len() > 0 && is_white_space(s.last()) {
        trimmed(s.drop_last())
    } else {
        s
    }
}

/// Whether `c` is white space.
pub fn white_space(c: char) -> (yes: bool)
    ensures
        yes == is_white_space(c),
{
    let u: u32 = c as u32;
    (0x9 <= u && u <= 0xd) || u == 0x20 || u == 0x85 || u == 0xa0 || u == 0x1680 || (0x2000 <= u
        && u <= 0x200a) || u == 0x2028 || u == 0x2029 || u == 0x202f || u == 0x205f || u == 0x3000
}

/// The characters of `s`.
pub(crate) fn chars_of(s: &str) -> (chars: Vec<char>)
    ensures
        chars@ == s@,
{
    let mut chars: Vec<char> = Vec::new();
    for c in it: s.chars()
        invariant
            it.seq() == s@,
            chars@ == s@.take(it.index() as int),
    {
        chars.push(c);
    }
    chars
}

/// Whether `s` holds nothing but white space.
pub fn is_blank(s: &str) -> (blank: bool)
    ensures
        blank == all_white_space(s@),
{
    let chars = chars_of(s);
    let mut i: usize = 0;
    while i < chars.len()
        invariant
            i <= chars@.len(),
            chars@ == s@,
            forall|j: int| 0 <= j < i ==> is_white_space(#[trigger] s@[j]),
        decreases chars@.len() - i,
    {
        if !white_space(chars[i]) {
            assert(!is_white_space(s@[i as int]));
            return false;
        }
        i = i + 1;
    }
    true
}

/// `s` without the white space at its start and its end.
pub fn trim(s: &str) -> (inner: &str)
    ensures
        inner@ == trimmed(s@),
{
    let chars = chars_of(s);
    let mut lo: usize = 0;
    let mut hi: usize = chars.len();
    assert(s@.subrange(0, s@.len() as int) =~= s@);
    while lo < hi && white_space(chars[lo])
        invariant
            lo <= hi,
            hi == s@.len(),
            chars@ == s@,
            trimmed(s@.subrange(lo as int, hi as int)) == trimmed(s@),
        decreases hi - lo,
    {
        assert(s@.subrange(lo as int, hi as int).drop_first() =~= s@.subrange(lo + 1, hi as int));
        lo = lo + 1;
    }
    while lo < hi && white_space(chars[hi - 1])
        invariant
            lo <= hi <= s@.len(),
            chars@ == s@,
            lo < hi ==> !is_white_space(s@[lo as int]),
            trimmed(s@.subrange(lo as int, hi as int)) == trimmed(s@),
        decreases hi - lo,
    {
        assert(s@.subrange(lo as int, hi as int).drop_last() =~= s@.subrange(lo as int, hi - 1));
        hi = hi - 1;
    }
    s.substring_char(lo, hi)
}

/// Trimming leaves nothing exactly when there was only white space.
pub proof fn blank_trims_to_nothing(s: Seq<char>)
    ensures
        all_white_space(s) <==> trimmed(s).len() == 0,
    decreases s.len(),
{
    if s.len() > 0 && is_white_space(s.first()) {
        let rest = s.drop_first();
        blank_trims_to_nothing(rest);
        assert forall|i: int| all_white_space(rest) && 0 <= i < s.len() implies is_white_space(
            #[trigger] s[i],
        ) by {
            if i > 0 {
                assert(is_white_space(rest[i - 1]));
            }
        }
        assert forall|i: int| all_white_space(s) && 0 <= i < rest.len() implies is_white_space(
            #[trigger] rest[i],
        ) by {
            assert(is_white_space(s[i + 1]));
        }
    } else if s.len() > 0 {
        assert(!is_white_space(s[0]));
        if is_white_space(s.last()) {
            let rest = s.drop_last();
            blank_trims_to_nothing(rest);
            assert(!is_white_space(rest[0]));
        }
    }
}

/// Trimming twice is trimming once.
pub proof fn trimming_is_idempotent(s: Seq<char>)
    ensures
        trimmed(trimmed(s)) == trimmed(s),
    decreases s.len(),
{
    if s.len() > 0 && is_white_space(s.first()) {
        trimming_is_idempotent(s.drop_first());
    } else if s.len() > 0 && is_white_space(s.last()) {
        trimming_is_idempotent(s.drop_last());
    }
}

// ---------------------------------------------------------------------------
// Alignment
// ---------------------------------------------------------------------------

/// How the lines of the text block are justified.
#[derive(Clone, Copy, Debug, PartialEq, Eq, Structural)]
pub enum Alignment {
    Left,
    Center,
    Right,
}

/// `c` with an ASCII capital made small.
pub open spec fn ascii_lower(c: char) -> char {
    if 'A' <= c && c <= 'Z' {
        (c as u32 + 32) as char
    } else {
        c
    }
}

/// `s` with every ASCII capital made small.
pub open spec fn lowered(s: Seq<char>) -> Seq<char> {
    s.map_values(|c: char| ascii_lower(c))
}

/// The alignment that a configured word stands for; anything but "left" and
/// "right", in any case and with any space around it, is "center".
pub open spec fn alignment_of(s: Seq<char>) -> Alignment {
    if lowered(trimmed(s)) == "left"@ {
        Alignment::Left
    } else if lowered(trimmed(s)) == "right"@ {
        Alignment::Right
    } else {
        Alignment::Center
    }
}

fn to_lower(c: char) -> (small: char)
    ensures
        small == ascii_lower(c),
{
    if 'A' <= c && c <= 'Z' {
        (c as u8 + 32) as char
    } else {
        c
    }
}

/// Whether `s`, put into small letters, reads `word`.
fn reads(s: &str, word: &str) -> (yes: bool)
    ensures
        yes == (lowered(s@) == word@),
{
    let chars = chars_of(s);
    let goal = chars_of(word);
    if chars.len() != goal.len() {
        return false;
    }
    let mut i: usize = 0;
    while i < chars.len()
        invariant
            i <= chars@.len(),
            chars@.len() == goal@.len(),
            chars@ == s@,
            goal@ == word@,
            forall|j: int| 0 <= j < i ==> lowered(s@)[j] == #[trigger] word@[j],
        decreases chars@.len() - i,
    {
        if to_lower(chars[i]) != goal[i] {
            assert(lowered(s@)[i as int] != word@[i as int]);
            return false;
        }
        i = i + 1;
    }
    assert(lowered(s@) =~= word@);
    true
}

/// Reads a configured alignment; unknown words fall back to the centre.
pub fn text_alignment(s: &str) -> (align: Alignment)
    ensures
        align == alignment_of(s@),
{
    let word = trim(s);
    if reads(word, "left") {
        Alignment::Left
    } else if reads(word, "right") {
        Alignment::Right
    } else {
        Alignment::Center
    }
}

/// A few bits that tell the alignments apart in a cache key.
pub open spec fn alignment_code(align: Alignment) -> u64 {
    match align {
        Alignment::Left => 1,
        Alignment::Center => 2,
        Alignment::Right => 3,
    }
}

/// A few bits that tell the alignments apart in a cache key.
pub fn alignment_bits(align: Alignment) -> (bits: u64)
    ensures
        bits == alignment_code(align),
{
    match align {
        Alignment::Left => 1,
        Alignment::Center => 2,
        Alignment::Right => 3,
    }
}

// ---------------------------------------------------------------------------
// Colours
// ---------------------------------------------------------------------------

/// `s` without the `#` signs it starts with.
pub open spec fn unhashed(s: Seq<char>) -> Seq<char>
    decreases s.len(),
{
    if s.len() > 0 && s.first() == '#' {
        unhashed(s.drop_first())
    } else {
        s
    }
}

/// The value of a hexadecimal digit, or nothing for any other character.
pub open spec fn hex_digit(c: char) -> Option<int> {
    if '0' <= c && c <= '9' {
        Some(c as int - '0' as int)
    } else if 'a' <= c && c <= 'f' {
        Some(c as int - 'a' as int + 10)
    } else if 'A' <= c && c <= 'F' {
        Some(c as int - 'A' as int + 10)
    } else {
        None
    }
}

/// Whether `s` is made of hexadecimal digits only.
pub open spec fn all_hex(s: Seq<char>) -> bool {
    forall|i: int| 0 <= i < s.len() ==> hex_digit(#[trigger] s[i]) is Some
}

/// The number that the hexadecimal digits `s` write.
pub open spec fn hex_number(s: Seq<char>) -> int
    decreases s.len(),
{
    if s.len() == 0 {
        0
    } else {
        16 * hex_number(s.drop_last()) + hex_digit(s.last())->0
    }
}

/// The 32-bit number that `s` writes in hexadecimal, with or without a plus
/// sign, or nothing when it writes none.
pub open spec fn parsed_hex(s: Seq<char>) -> Option<int> {
    let digits = if s.len() > 0 && s.first() == '+' {
        s.drop_first()
    } else {
        s
    };
    if digits.len() > 0 && all_hex(digits) && hex_number(digits) <= u32::MAX {
        Some(hex_number(digits))
    } else {
        None
    }
}

/// The colour that `s` names; text that names none is black.
pub open spec fn color_value(s: Seq<char>) -> int {
    match parsed_hex(unhashed(s)) {
        Some(v) => v,
        None => 0,
    }
}

fn hex_value(c: char) -> (value: Option<u32>)
    ensures
        value is Some <==> hex_digit(c) is Some,
        value matches Some(v) ==> Some(v as int) == hex_digit(c) && v < 16,
{
    let u: u32 = c as u32;
    if '0' <= c && c <= '9' {
        Some(u - 48)
    } else if 'a' <= c && c <= 'f' {
        Some(u - 97 + 10)
    } else if 'A' <= c && c <= 'F' {
        Some(u - 65 + 10)
    } else {
        None
    }
}

proof fn lemma_more_digits_more_value(s: Seq<char>, n: int)
    requires
        all_hex(s),
        0 <= n <= s.len(),
    ensures
        0 <= hex_number(s.take(n)) <= hex_number(s),
    decreases s.len(),
{
    if n == s.len() {
        assert(s.take(n) =~= s);
        if s.len() > 0 {
            let t = s.drop_last();
            assert forall|i: int| 0 <= i < t.len() implies hex_digit(#[trigger] t[i]) is Some by {
                assert(t[i] == s[i]);
            }
            lemma_more_digits_more_value(t, t.len() as int);
            assert(t.take(t.len() as int) =~= t);
            assert(hex_digit(s[s.len() - 1]) is Some);
        }
    } else {
        let t = s.drop_last();
        assert forall|i: int| 0 <= i < t.len() implies hex_digit(#[trigger] t[i]) is Some by {
            assert(t[i] == s[i]);
        }
        lemma_more_digits_more_value(t, n);
        assert(t.take(n) =~= s.take(n));
        assert(hex_digit(s[s.len() - 1]) is Some);
    }
}

/// The number that the digits of `chars` from `from` on write, if they write one.
fn parse_digits(chars: &Vec<char>, from: usize) -> (value: Option<u32>)
    requires
        from <= chars@.len(),
    ensures
        ({
            let digits = chars@.skip(from as int);
            match value {
                Some(v) => digits.len() > 0 && all_hex(digits) && hex_number(digits) == v,
                None => digits.len() == 0 || !all_hex(digits) || hex_number(digits) > u32::MAX,
            }
        }),
{
    let ghost digits = chars@.skip(from as int);
    if from == chars.len() {
        return None;
    }
    let mut value: u32 = 0;
    let mut fits: bool = true;
    let mut i: usize = from;
    while i < chars.len()
        invariant
            from <= i <= chars@.len(),
            digits == chars@.skip(from as int),
            all_hex(digits.take(i - from)),
            fits ==> hex_number(digits.take(i - from)) == value,
            !fits ==> hex_number(digits.take(i - from)) > u32::MAX,
        decreases chars@.len() - i,
    {
        let ghost n = i - from;
        assert(digits.take(n + 1).drop_last() =~= digits.take(n));
        match hex_value(chars[i]) {
            None => {
                assert(hex_digit(digits[n]) is None);
                return None;
            },
            Some(d) => {
                proof {
                    assert forall|j: int| 0 <= j < n + 1 implies hex_digit(
                        #[trigger] digits.take(n + 1)[j],
                    ) is Some by {
                        if j < n {
                            assert(digits.take(n)[j] == digits.take(n + 1)[j]);
                        }
                    }
                    lemma_more_digits_more_value(digits.take(n), 0);
                }
                if fits && value <= 0x0fff_ffff {
                    value = value * 16 + d;
                } else {
                    fits = false;
                }
            },
        }
        i = i + 1;
    }
    assert(digits.take(digits.len() as int) =~= digits);
    if fits {
        Some(value)
    } else {
        None
    }
}

/// Reads a `"#rrggbb"` colour into its red, green and blue parts. Text that is
/// no hexadecimal number reads as black.
pub fn hex_color(s: &str) -> (rgb: (u8, u8, u8))
    ensures
        rgb.0 == color_value(s@) / 65536 % 256,
        rgb.1 == color_value(s@) / 256 % 256,
        rgb.2 == color_value(s@) % 256,
{
    let chars = chars_of(s);
    let mut start: usize = 0;
    assert(s@.skip(0) =~= s@);
    while start < chars.len() && chars[start] == '#'
        invariant
            start <= chars@.len(),
            chars@ == s@,
            unhashed(s@.skip(start as int)) == unhashed(s@),
        decreases chars@.len() - start,
    {
        assert(s@.skip(start as int).drop_first() =~= s@.skip(start + 1));
        start = start + 1;
    }
    let ghost plain = unhashed(s@);
    assert(plain == s@.skip(start as int));
    let value: Option<u32> = if start < chars.len() && chars[start] == '+' {
        assert(plain.drop_first() =~= chars@.skip(start + 1));
        parse_digits(&chars, start + 1)
    } else {
        parse_digits(&chars, start)
    };
    let v: u32 = match value {
        Some(v) => v,
        None => 0,
    };
    ((v / 65536 % 256) as u8, (v / 256 % 256) as u8, (v % 256) as u8)
}

// ---------------------------------------------------------------------------
// Fonts
// ---------------------------------------------------------------------------

/// `s` up to its first comma.
pub open spec fn before_comma(s: Seq<char>) -> Seq<char>
    decreases s.len(),
{
    if s.len() == 0 || s.first() == ',' {
        Seq::empty()
    } else {
        seq![s.first()] + before_comma(s.drop_first())
    }
}

/// The family that a font list asks for first, or "monospace" when it names none.
pub open spec fn first_family(spec: Seq<char>) -> Seq<char> {
    let name = trimmed(before_comma(spec));
    if name.len() == 0 {
        "monospace"@
    } else {
        name
    }
}

proof fn lemma_before_comma(s: Seq<char>, n: int)
    requires
        0 <= n <= s.len(),
        forall|i: int| 0 <= i < n ==> #[trigger] s[i] != ',',
        n < s.len() ==> s[n] == ',',
    ensures
        before_comma(s) == s.take(n),
    decreases n,
{
    if n == 0 {
        assert(s.take(0) =~= Seq::empty());
    } else {
        let rest = s.drop_first();
        assert forall|i: int| 0 <= i < n - 1 implies #[trigger] rest[i] != ',' by {
            assert(s[i + 1] != ',');
        }
        lemma_before_comma(rest, n - 1);
        assert(s[0] != ',');
        assert(s.take(n) =~= seq![s.first()] + rest.take(n - 1));
    }
}

/// "JetBrains Mono, monospace" becomes the one family name a font lookup takes.
pub fn first_font_family(spec: &str) -> (family: String)
    ensures
        family@ == first_family(spec@),
{
    let chars = chars_of(spec);
    let mut n: usize = 0;
    while n < chars.len() && chars[n] != ','
        invariant
            n <= chars@.len(),
            chars@ == spec@,
            forall|i: int| 0 <= i < n ==> #[trigger] spec@[i] != ',',
        decreases chars@.len() - n,
    {
        n = n + 1;
    }
    proof {
        lemma_before_comma(spec@, n as int);
        assert(spec@.subrange(0, n as int) =~= spec@.take(n as int));
    }
    let name = trim(spec.substring_char(0, n));
    if name.is_empty() {
        "monospace".to_owned()
    } else {
        name.to_owned()
    }
}

/// The line that names the author of a quote.
pub fn author_line(author: &str) -> (line: String)
    ensures
        line@ == "— "@ + author@,
{
    "— ".to_owned().concat(author)
}

// ---------------------------------------------------------------------------
// What the readings mean
// ---------------------------------------------------------------------------

/// Whether there is only white space in `s` before `lo` and from `hi` on.
pub open spec fn space_around(s: Seq<char>, lo: int, hi: int) -> bool {
    forall|i: int| 0 <= i < lo || hi <= i < s.len() ==> is_white_space(#[trigger] s[i])
}

proof fn lemma_trim_from(s: Seq<char>, lo: int, hi: int) -> (ends: (int, int))
    requires
        0 <= lo <= hi <= s.len(),
        space_around(s, lo, hi),
        trimmed(s.subrange(lo, hi)) == trimmed(s),
    ensures
        0 <= ends.0 <= ends.1 <= s.len(),
        space_around(s, ends.0, ends.1),
        trimmed(s) == s.subrange(ends.0, ends.1),
        ends.0 < ends.1 ==> !is_white_space(s[ends.0]) && !is_white_space(s[ends.1 - 1]),
    decreases hi - lo,
{
    let part = s.subrange(lo, hi);
    if lo < hi && is_white_space(s[lo]) {
        assert(part.first() == s[lo]);
        assert(part.drop_first() =~= s.subrange(lo + 1, hi));
        lemma_trim_from(s, lo + 1, hi)
    } else if lo < hi && is_white_space(s[hi - 1]) {
        assert(part.first() == s[lo]);
        assert(part.last() == s[hi - 1]);
        assert(part.drop_last() =~= s.subrange(lo, hi - 1));
        lemma_trim_from(s, lo, hi - 1)
    } else {
        if lo < hi {
            assert(part.first() == s[lo]);
            assert(part.last() == s[hi - 1]);
        }
        (lo, hi)
    }
}

/// Trimming takes off white space and nothing else: what is left is one stretch
/// of the text, with only white space before and after it and none at its ends.
pub proof fn trimming_takes_off_only_space(s: Seq<char>)
    ensures
        exists|lo: int, hi: int|
            {
                &&& 0 <= lo <= hi <= s.len()
                &&& trimmed(s) == s.subrange(lo, hi)
                &&& #[trigger] space_around(s, lo, hi)
                &&& lo < hi ==> !is_white_space(s[lo]) && !is_white_space(s[hi - 1])
            },
{
    assert(s.subrange(0, s.len() as int) =~= s);
    let (lo, hi) = lemma_trim_from(s, 0, s.len() as int);
    assert(space_around(s, lo, hi));
}

/// Whether `c` is a letter, small or capital.
pub open spec fn is_letter(c: char, small: char, capital: char) -> bool {
    c == small || c == capital
}

/// The words "left" and "right" ask for their sides, letter by letter in either
/// case and with any white space around them; every other text asks for the centre.
pub proof fn words_ask_for_their_sides(s: Seq<char>)
    ensures
        ({
            let t = trimmed(s);
            let left = t.len() == 4 && is_letter(t[0], 'l', 'L') && is_letter(t[1], 'e', 'E')
                && is_letter(t[2], 'f', 'F') && is_letter(t[3], 't', 'T');
            let right = t.len() == 5 && is_letter(t[0], 'r', 'R') && is_letter(t[1], 'i', 'I')
                && is_letter(t[2], 'g', 'G') && is_letter(t[3], 'h', 'H') && is_letter(
                t[4],
                't',
                'T',
            );
            &&& alignment_of(s) is Left <==> left
            &&& alignment_of(s) is Right <==> right
            &&& alignment_of(s) is Center <==> !left && !right
        }),
{
    reveal_strlit("left");
    reveal_strlit("right");
    let t = trimmed(s);
    let low = lowered(t);
    assert(low.len() == t.len());
    assert forall|i: int| 0 <= i < t.len() implies #[trigger] low[i] == ascii_lower(t[i]) by {}
    if t.len() == 4 && is_letter(t[0], 'l', 'L') && is_letter(t[1], 'e', 'E') && is_letter(
        t[2],
        'f',
        'F',
    ) && is_letter(t[3], 't', 'T') {
        assert(low =~= "left"@);
    }
    if t.len() == 5 && is_letter(t[0], 'r', 'R') && is_letter(t[1], 'i', 'I') && is_letter(
        t[2],
        'g',
        'G',
    ) && is_letter(t[3], 'h', 'H') && is_letter(t[4], 't', 'T') {
        assert(low =~= "right"@);
    }
    if low == "left"@ {
        assert(low[0] == 'l' && low[1] == 'e' && low[2] == 'f' && low[3] == 't');
    }
    if low == "right"@ {
        assert(low[0] == 'r' && low[1] == 'i' && low[2] == 'g' && low[3] == 'h' && low[4] == 't');
    }
}

/// The sixteen digits have their values, in either case, and nothing else is a digit.
pub proof fn digits_have_their_values(c: char)
    ensures
        ({
            let u = c as int;
            match hex_digit(c) {
                Some(v) => (48 <= u <= 57 && v == u - 48) || (65 <= u <= 70 && v == u - 55) || (97
                    <= u <= 102 && v == u - 87),
                None => !(48 <= u <= 57) && !(65 <= u <= 70) && !(97 <= u <= 102),
            }
        }),
{
}

proof fn lemma_hex_push(s: Seq<char>, c: char)
    ensures
        hex_number(s.push(c)) == 16 * hex_number(s) + hex_digit(c)->0,
{
    assert(s.push(c).drop_last() =~= s);
}

proof fn lemma_six_digits(s: Seq<char>)
    requires
        s.len() == 6,
    ensures
        hex_number(s) == 16 * (16 * (16 * (16 * (16 * hex_digit(s[0])->0 + hex_digit(s[1])->0)
            + hex_digit(s[2])->0) + hex_digit(s[3])->0) + hex_digit(s[4])->0) + hex_digit(s[5])->0,
{
    assert forall|n: int| 0 < n <= 6 implies #[trigger] hex_number(s.take(n)) == 16 * hex_number(
        s.take(n - 1),
    ) + hex_digit(s[n - 1])->0 by {
        assert(s.take(n).drop_last() =~= s.take(n - 1));
        assert(s.take(n).last() == s[n - 1]);
    }
    assert(s.take(0) =~= Seq::empty());
    assert(hex_number(s.take(0)) == 0);
    assert(hex_number(s.take(1)) == hex_digit(s[0])->0);
    assert(hex_number(s.take(2)) == 16 * hex_number(s.take(1)) + hex_digit(s[1])->0);
    assert(hex_number(s.take(3)) == 16 * hex_number(s.take(2)) + hex_digit(s[2])->0);
    assert(hex_number(s.take(4)) == 16 * hex_number(s.take(3)) + hex_digit(s[3])->0);
    assert(hex_number(s.take(5)) == 16 * hex_number(s.take(4)) + hex_digit(s[4])->0);
    assert(hex_number(s.take(6)) == 16 * hex_number(s.take(5)) + hex_digit(s[5])->0);
    assert(s.take(6) =~= s);
}

proof fn lemma_digit_range(c: char)
    requires
        hex_digit(c) is Some,
    ensures
        0 <= hex_digit(c)->0 < 16,
        c != '#',
        c != '+',
{
}

proof fn lemma_digits_read(s: Seq<char>)
    requires
        s.len() > 0,
        all_hex(s),
        hex_number(s) <= u32::MAX,
    ensures
        color_value(s) == hex_number(s),
        color_value(seq!['#'] + s) == hex_number(s),
{
    assert(hex_digit(s[0]) is Some);
    lemma_digit_range(s[0]);
    assert(s.first() == s[0]);
    let hashed = seq!['#'] + s;
    assert(hashed.first() == '#');
    assert(hashed.drop_first() =~= s);
}

/// Six digits name a colour by two digits for each part, with or without a `#`.
pub proof fn two_digits_make_a_part(s: Seq<char>)
    requires
        s.len() == 6,
        forall|i: int| 0 <= i < 6 ==> hex_digit(#[trigger] s[i]) is Some,
    ensures
        color_value(s) / 65536 % 256 == 16 * hex_digit(s[0])->0 + hex_digit(s[1])->0,
        color_value(s) / 256 % 256 == 16 * hex_digit(s[2])->0 + hex_digit(s[3])->0,
        color_value(s) % 256 == 16 * hex_digit(s[4])->0 + hex_digit(s[5])->0,
        color_value(s) / 65536 < 256,
        color_value(seq!['#'] + s) == color_value(s),
{
    lemma_six_digits(s);
    lemma_digit_range(s[0]);
    lemma_digit_range(s[1]);
    lemma_digit_range(s[2]);
    lemma_digit_range(s[3]);
    lemma_digit_range(s[4]);
    lemma_digit_range(s[5]);
    let red = 16 * hex_digit(s[0])->0 + hex_digit(s[1])->0;
    let green = 16 * hex_digit(s[2])->0 + hex_digit(s[3])->0;
    let blue = 16 * hex_digit(s[4])->0 + hex_digit(s[5])->0;
    assert(hex_number(s) == red * 65536 + green * 256 + blue);
    lemma_digits_read(s);
}

/// A `#` in front changes nothing, and what is left must be digits, with one plus
/// sign before them at the most: anything else is black, and so is a number of
/// more than 32 bits.
pub proof fn what_is_no_number_is_black(s: Seq<char>, i: int)
    ensures
        color_value(seq!['#'] + s) == color_value(s),
        0 <= color_value(s) <= u32::MAX,
        s.len() == 0 ==> color_value(s) == 0,
        0 <= i < s.len() && s[0] != '#' && hex_digit(s[i]) is None && !(i == 0 && s[0] == '+')
            ==> color_value(s) == 0,
        s.len() == 1 && s[0] == '+' ==> color_value(s) == 0,
        s.len() > 0 && hex_digit(s[0]) is Some ==> color_value(seq!['+'] + s) == color_value(s),
{
    let hashed = seq!['#'] + s;
    assert(hashed.first() == '#');
    assert(hashed.drop_first() =~= s);
    let plain = unhashed(s);
    let digits = if plain.len() > 0 && plain.first() == '+' {
        plain.drop_first()
    } else {
        plain
    };
    if all_hex(digits) {
        lemma_more_digits_more_value(digits, 0);
        assert(digits.take(0) =~= Seq::empty());
    }
    if 0 <= i < s.len() && s[0] != '#' && hex_digit(s[i]) is None && !(i == 0 && s[0] == '+') {
        if s[0] == '+' {
            assert(digits[i - 1] == s[i]);
            assert(hex_digit(digits[i - 1]) is None);
        } else {
            assert(hex_digit(digits[i]) is None);
        }
        assert(!all_hex(digits));
    }
    if s.len() > 0 && hex_digit(s[0]) is Some {
        let signed = seq!['+'] + s;
        assert(signed.first() == '+');
        assert(signed.drop_first() =~= s);
        assert(s.first() != '+' && s.first() != '#');
    }
}

/// One more digit makes a number sixteen times as large and adds the digit, as
/// long as 32 bits hold it; a number beyond them is black.
pub proof fn digits_count_by_sixteens(s: Seq<char>, c: char)
    requires
        s.len() > 0,
        forall|i: int| 0 <= i < s.len() ==> hex_digit(#[trigger] s[i]) is Some,
        hex_digit(c) is Some,
    ensures
        s.len() == 1 ==> color_value(s) == hex_digit(s[0])->0,
        hex_number(s) <= u32::MAX ==> color_value(s) == hex_number(s),
        hex_number(s) > u32::MAX ==> color_value(s) == 0 && color_value(s.push(c)) == 0,
        16 * hex_number(s) + hex_digit(c)->0 <= u32::MAX ==> color_value(s.push(c)) == 16
            * color_value(s) + hex_digit(c)->0,
        16 * hex_number(s) + hex_digit(c)->0 > u32::MAX ==> color_value(s.push(c)) == 0,
{
    let t = s.push(c);
    assert(s.first() == s[0] && t.first() == s[0]);
    assert(hex_digit(s[0]) is Some);
    assert forall|i: int| 0 <= i < t.len() implies hex_digit(#[trigger] t[i]) is Some by {
        if i < s.len() {
            assert(t[i] == s[i]);
        }
    }
    lemma_hex_push(s, c);
    lemma_more_digits_more_value(s, 0);
    assert(s.take(0) =~= Seq::empty());
    if s.len() == 1 {
        assert(s =~= Seq::<char>::empty().push(s[0]));
        lemma_hex_push(Seq::empty(), s[0]);
    }
}

/// The family is what stands before the first comma, without the white space
/// around it; where nothing stands there, it is "monospace".
pub proof fn family_stands_before_the_comma(spec: Seq<char>, n: int)
    requires
        0 <= n <= spec.len(),
        forall|i: int| 0 <= i < n ==> #[trigger] spec[i] != ',',
        n < spec.len() ==> spec[n] == ',',
    ensures
        all_white_space(spec.take(n)) ==> first_family(spec) == "monospace"@,
        !all_white_space(spec.take(n)) ==> first_family(spec) == trimmed(spec.take(n)),
{
    lemma_before_comma(spec, n);
    blank_trims_to_nothing(spec.take(n));
}

} // verus!
