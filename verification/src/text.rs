//! Text as sequences of characters: white space, fields, lines, decimal numbers.
use vstd::prelude::*;

verus! {

/// `String::push` appends one character at the end and leaves the rest as it is.
pub assume_specification[ String::push ](s: &mut String, c: char)
    ensures
        final(s)@ == old(s)@.push(c),
;

// ---------------------------------------------------------------------------
// White space
// ---------------------------------------------------------------------------

/// The Unicode property `White_Space`.
pub open spec fn white_space(c: char) -> bool {
    let u = c as u32;
    ||| 0x09 <= u <= 0x0d
    ||| u == 0x20
    ||| u == 0x85
    ||| u == 0xa0
    ||| u == 0x1680
    ||| 0x2000 <= u <= 0x200a
    ||| u == 0x2028
    ||| u == 0x2029
    ||| u == 0x202f
    ||| u == 0x205f
    ||| u == 0x3000
}

/// Whether a character is white space.
pub fn is_white_space(c: char) -> (res: bool)
    ensures
        res == white_space(c),
{
    let u: u32 = c as u32;
    (0x09 <= u && u <= 0x0d) || u == 0x20 || u == 0x85 || u == 0xa0 || u == 0x1680 || (0x2000 <= u
        && u <= 0x200a) || u == 0x2028 || u == 0x2029 || u == 0x202f || u == 0x205f || u == 0x3000
}

/// The characters that are white space, and no others: tab, line feed, vertical tab, form
/// feed, carriage return and space, the next line and no-break space, the ogham space, the
/// spaces of a given width, the line and paragraph separators, the narrow no-break and the
/// mathematical space, and the ideographic space.
pub proof fn law_white_space(c: char)
    ensures
        white_space(c) <==> {
            ||| c == '\t' || c == '\n' || c == '\u{b}' || c == '\u{c}' || c == '\r' || c == ' '
            ||| c == '\u{85}' || c == '\u{a0}' || c == '\u{1680}'
            ||| c == '\u{2000}' || c == '\u{2001}' || c == '\u{2002}' || c == '\u{2003}'
            ||| c == '\u{2004}' || c == '\u{2005}' || c == '\u{2006}' || c == '\u{2007}'
            ||| c == '\u{2008}' || c == '\u{2009}' || c == '\u{200a}'
            ||| c == '\u{2028}' || c == '\u{2029}' || c == '\u{202f}' || c == '\u{205f}'
            ||| c == '\u{3000}'
        },
{
}

/// `s` without the white space it begins with.
pub open spec fn trim_start(s: Seq<char>) -> Seq<char>
    decreases s.len(),
{
    if s.len() > 0 && white_space(s[0]) {
        trim_start(s.drop_first())
    } else {
        s
    }
}

/// `s` without the white space it ends with.
pub open spec fn trim_end(s: Seq<char>) -> Seq<char>
    decreases s.len(),
{
    if s.len() > 0 && white_space(s.last()) {
        trim_end(s.drop_last())
    } else {
        s
    }
}

/// `s` without the white space at its two ends.
pub open spec fn trimmed(s: Seq<char>) -> Seq<char> {
    trim_end(trim_start(s))
}

/// What trimming leaves is a part of the text that neither begins nor ends with
/// white space, and only white space was taken off.
pub proof fn law_trimmed(s: Seq<char>) -> (range: (int, int))
    ensures
        0 <= range.0 <= range.1 <= s.len(),
        trimmed(s) == s.subrange(range.0, range.1),
        forall|i: int| 0 <= i < range.0 || range.1 <= i < s.len() ==> white_space(#[trigger] s[i]),
        trimmed(s).len() > 0 ==> !white_space(trimmed(s)[0]) && !white_space(trimmed(s).last()),
{
    let a = lemma_trim_start(s);
    let t = trim_start(s);
    let b = lemma_trim_end(t);
    assert(t.subrange(0, b) == s.subrange(a, a + b));
    assert forall|i: int| a + b <= i < s.len() implies white_space(#[trigger] s[i]) by {
        assert(t[i - a] == s[i]);
    }
    (a, a + b)
}

proof fn lemma_trim_start(s: Seq<char>) -> (a: int)
    ensures
        0 <= a <= s.len(),
        trim_start(s) == s.subrange(a, s.len() as int),
        forall|i: int| 0 <= i < a ==> white_space(#[trigger] s[i]),
        trim_start(s).len() > 0 ==> !white_space(trim_start(s)[0]),
    decreases s.len(),
{
    if s.len() > 0 && white_space(s[0]) {
        let t = s.drop_first();
        let a = lemma_trim_start(t);
        assert(t.subrange(a, t.len() as int) == s.subrange(a + 1, s.len() as int));
        assert forall|i: int| 0 <= i < a + 1 implies white_space(#[trigger] s[i]) by {
            if i > 0 {
                assert(t[i - 1] == s[i]);
            }
        }
        a + 1
    } else {
        assert(s.subrange(0, s.len() as int) == s);
        0
    }
}

proof fn lemma_trim_end(s: Seq<char>) -> (b: int)
    ensures
        0 <= b <= s.len(),
        trim_end(s) == s.subrange(0, b),
        forall|i: int| b <= i < s.len() ==> white_space(#[trigger] s[i]),
        trim_end(s).len() > 0 ==> !white_space(trim_end(s).last()),
    decreases s.len(),
{
    if s.len() > 0 && white_space(s.last()) {
        let t = s.drop_last();
        let b = lemma_trim_end(t);
        assert(t.subrange(0, b) == s.subrange(0, b));
        assert forall|i: int| b <= i < s.len() implies white_space(#[trigger] s[i]) by {
            if i < t.len() {
                assert(t[i] == s[i]);
            }
        }
        b
    } else {
        assert(s.subrange(0, s.len() as int) == s);
        s.len() as int
    }
}

/// Trimming a trimmed text changes nothing.
pub proof fn law_trim_is_idempotent(s: Seq<char>)
    ensures
        trimmed(trimmed(s)) == trimmed(s),
{
    law_trimmed(s);
}

// ---------------------------------------------------------------------------
// Strings and characters
// ---------------------------------------------------------------------------

/// The characters of a string, in order.
pub fn characters(s: &str) -> (v: Vec<char>)
    ensures
        v@ == s@,
{
    let mut v: Vec<char> = Vec::new();
    for c in it: s.chars()
        invariant
            v@ == s@.take(it.index()),
            it.seq() == s@,
    {
        v.push(c);
    }
    assert(s@.take(s@.len() as int) == s@);
    v
}

/// The string of the characters from `from` up to `to`.
pub fn string_of(v: &Vec<char>, from: usize, to: usize) -> (s: String)
    requires
        from <= to <= v.len(),
    ensures
        s@ == v@.subrange(from as int, to as int),
{
    let mut s = String::new();
    let mut i: usize = from;
    while i < to
        invariant
            from <= i <= to <= v.len(),
            s@ == v@.subrange(from as int, i as int),
        decreases to - i,
    {
        s.push(v[i]);
        i += 1;
    }
    s
}

/// The string without the white space at its two ends.
pub fn trim(s: &str) -> (t: String)
    ensures
        t@ == trimmed(s@),
{
    let v = characters(s);
    let mut from: usize = 0;
    proof {
        assert(s@.skip(0) == s@);
    }
    while from < v.len() && is_white_space(v[from])
        invariant
            from <= v.len(),
            v@ == s@,
            trim_start(s@) == trim_start(s@.skip(from as int)),
        decreases v.len() - from,
    {
        assert(s@.skip(from as int).drop_first() == s@.skip(from + 1));
        from += 1;
    }
    let ghost rest = s@.skip(from as int);
    assert(trim_start(s@) == rest);
    let mut to: usize = v.len();
    assert(rest.take(to - from) == rest);
    while from < to && is_white_space(v[to - 1])
        invariant
            from <= to <= v.len(),
            v@ == s@,
            rest == s@.skip(from as int),
            trim_end(rest) == trim_end(rest.take(to - from)),
        decreases to,
    {
        assert(rest.take(to - from).drop_last() == rest.take(to - 1 - from));
        to -= 1;
    }
    assert(v@.subrange(from as int, to as int) == rest.take(to - from));
    string_of(&v, from, to)
}

/// Whether two strings hold the same characters.
pub fn same(a: &str, b: &str) -> (res: bool)
    ensures
        res == (a@ == b@),
{
    a.to_owned() == b.to_owned()
}

// ---------------------------------------------------------------------------
// Environment switches
// ---------------------------------------------------------------------------

/// An upper-case ASCII letter in lower case; any other character as it is.
pub open spec fn ascii_lower(c: char) -> char {
    if 'A' <= c && c <= 'Z' {
        (c as u32 + 32) as char
    } else {
        c
    }
}

/// A text with its upper-case ASCII letters in lower case.
pub open spec fn lowered(s: Seq<char>) -> Seq<char> {
    s.map_values(|c: char| ascii_lower(c))
}

/// Whether the value of an environment variable switches something on: `1`,
/// `true` or `yes`, in upper or lower case, with white space around it.
pub open spec fn switched_on(value: Option<Seq<char>>) -> bool {
    match value {
        Some(v) => {
            let word = lowered(trimmed(v));
            word == "1"@ || word == "true"@ || word == "yes"@
        },
        None => false,
    }
}

fn lower(s: &str) -> (t: String)
    ensures
        t@ == lowered(s@),
{
    let mut t = String::new();
    for c in it: s.chars()
        invariant
            it.seq() == s@,
            t@ == lowered(s@.take(it.index())),
    {
        let d: char = if 'A' <= c && c <= 'Z' {
            ((c as u8) + 32) as char
        } else {
            c
        };
        assert(d == ascii_lower(c));
        t.push(d);
    }
    assert(s@.take(s@.len() as int) == s@);
    t
}

/// Reads an on/off switch from the value of an environment variable.
pub fn switch_is_on(value: Option<&str>) -> (res: bool)
    ensures
        res == switched_on(
            match value {
                Some(v) => Some(v@),
                None => None,
            },
        ),
{
    match value {
        Some(v) => {
            let trimmed_value = trim(v);
            let word = lower(trimmed_value.as_str());
            same(word.as_str(), "1") || same(word.as_str(), "true") || same(word.as_str(), "yes")
        },
        None => false,
    }
}

// ---------------------------------------------------------------------------
// Fields and lines
// ---------------------------------------------------------------------------

/// The index of the first `c` in `s`, or the length of `s` where there is none.
pub open spec fn find(s: Seq<char>, c: char) -> int
    decreases s.len(),
{
    if s.len() == 0 || s[0] == c {
        0
    } else {
        1 + find(s.drop_first(), c)
    }
}

/// The index that `find` gives is the first one that holds `c`.
pub proof fn lemma_find(s: Seq<char>, c: char)
    ensures
        0 <= find(s, c) <= s.len(),
        forall|i: int| 0 <= i < find(s, c) ==> #[trigger] s[i] != c,
        find(s, c) < s.len() ==> s[find(s, c)] == c,
    decreases s.len(),
{
    if s.len() > 0 && s[0] != c {
        let t = s.drop_first();
        lemma_find(t, c);
        assert forall|i: int| 0 <= i < find(s, c) implies #[trigger] s[i] != c by {
            if i > 0 {
                assert(t[i - 1] == s[i]);
            }
        }
    }
}

/// An index that holds `c`, with none before it, is the one that `find` gives.
pub proof fn lemma_find_unique(s: Seq<char>, c: char, k: int)
    requires
        0 <= k <= s.len(),
        forall|i: int| 0 <= i < k ==> #[trigger] s[i] != c,
        k < s.len() ==> s[k] == c,
    ensures
        find(s, c) == k,
{
    lemma_find(s, c);
    let f = find(s, c);
    if f < k {
        assert(s[f] != c);
    } else if k < f {
        assert(s[k] != c);
    }
}

/// The index of the first `c` at or after `from`, or the length.
pub fn find_from(v: &Vec<char>, from: usize, c: char) -> (k: usize)
    requires
        from <= v.len(),
    ensures
        from <= k <= v.len(),
        k == from + find(v@.skip(from as int), c),
{
    let mut k: usize = from;
    while k < v.len() && v[k] != c
        invariant
            from <= k <= v.len(),
            forall|i: int| from <= i < k ==> v@[i] != c,
        decreases v.len() - k,
    {
        k += 1;
    }
    proof {
        lemma_find_unique(v@.skip(from as int), c, k - from);
    }
    k
}

/// The first field of `s`, of those that `c` separates.
pub open spec fn head(s: Seq<char>, c: char) -> Seq<char> {
    s.take(find(s, c))
}

/// What follows the first `c` in `s`; nothing where there is none.
pub open spec fn after(s: Seq<char>, c: char) -> Option<Seq<char>> {
    if find(s, c) < s.len() {
        Some(s.skip(find(s, c) + 1))
    } else {
        None
    }
}

/// A line without the carriage return it may end with.
pub open spec fn without_cr(line: Seq<char>) -> Seq<char> {
    if line.len() > 0 && line.last() == '\r' {
        line.drop_last()
    } else {
        line
    }
}

/// The lines of a text: a line feed ends a line, alone or after a carriage return.
/// What follows the last line feed is a line where it is not empty.
pub open spec fn lines(s: Seq<char>) -> Seq<Seq<char>>
    decreases s.len(),
{
    if s.len() == 0 {
        Seq::empty()
    } else if find(s, '\n') >= s.len() {
        seq![s]
    } else {
        proof {
            lemma_find(s, '\n');
        }
        seq![without_cr(head(s, '\n'))] + lines(s.skip(find(s, '\n') + 1))
    }
}

// ---------------------------------------------------------------------------
// Decimal numbers
// ---------------------------------------------------------------------------

pub open spec fn is_digit(c: char) -> bool {
    '0' <= c && c <= '9'
}

pub open spec fn all_digits(s: Seq<char>) -> bool {
    forall|i: int| 0 <= i < s.len() ==> is_digit(#[trigger] s[i])
}

/// The number that decimal digits stand for.
pub open spec fn digits_value(s: Seq<char>) -> nat
    decreases s.len(),
{
    if s.len() == 0 {
        0
    } else {
        10 * digits_value(s.drop_last()) + (s.last() as u32 - '0' as u32) as nat
    }
}

/// A sign `+` taken off.
pub open spec fn without_plus(s: Seq<char>) -> Seq<char> {
    if s.len() > 0 && s[0] == '+' {
        s.skip(1)
    } else {
        s
    }
}

/// The unsigned number that `s` stands for: digits, after a `+` at most, of a value
/// up to `max`.
pub open spec fn number(s: Seq<char>, max: nat) -> Option<nat> {
    let digits = without_plus(s);
    if digits.len() > 0 && all_digits(digits) && digits_value(digits) <= max {
        Some(digits_value(digits))
    } else {
        None
    }
}

/// The decimal digits of `n`, without leading zeros.
pub open spec fn decimal(n: nat) -> Seq<char>
    decreases n,
{
    if n < 10 {
        seq![(n + '0' as u32) as char]
    } else {
        decimal(n / 10).push((n % 10 + '0' as u32) as char)
    }
}

/// The decimal digits of a number are digits, and stand for the number.
pub proof fn lemma_decimal(n: nat)
    ensures
        decimal(n).len() > 0,
        all_digits(decimal(n)),
        digits_value(decimal(n)) == n,
    decreases n,
{
    reveal_with_fuel(digits_value, 2);
    if n < 10 {
        assert(decimal(n).drop_last() == Seq::<char>::empty());
    } else {
        lemma_decimal(n / 10);
        assert(decimal(n).drop_last() == decimal(n / 10));
    }
}

/// Reading a number's decimal digits gives the number.
pub proof fn law_decimal_reads_back(n: nat, max: nat)
    requires
        n <= max,
    ensures
        number(decimal(n), max) == Some(n),
{
    lemma_decimal(n);
    assert(is_digit(decimal(n)[0]));
}

/// Reads the unsigned number that the characters from `from` up to `to` stand for.
pub fn parse_u64(v: &Vec<char>, from: usize, to: usize) -> (res: Option<u64>)
    requires
        from <= to <= v.len(),
    ensures
        match res {
            Some(n) => number(v@.subrange(from as int, to as int), u64::MAX as nat) == Some(n as nat),
            None => number(v@.subrange(from as int, to as int), u64::MAX as nat) is None,
        },
{
    let ghost s = v@.subrange(from as int, to as int);
    let start: usize = if from < to && v[from] == '+' {
        from + 1
    } else {
        from
    };
    let ghost digits = without_plus(s);
    assert(digits == v@.subrange(start as int, to as int));
    if start == to {
        return None;
    }
    let mut n: u64 = 0;
    let mut i: usize = start;
    while i < to
        invariant
            from <= start <= i <= to <= v.len(),
            digits == v@.subrange(start as int, to as int),
            all_digits(digits.take(i - start)),
            digits_value(digits.take(i - start)) == n,
            s == v@.subrange(from as int, to as int),
            digits == without_plus(s),
        decreases to - i,
    {
        let c: char = v[i];
        assert(c == digits[i - start]);
        if c < '0' || '9' < c {
            assert(!is_digit(digits[i - start]));
            return None;
        }
        let d: u64 = (c as u32 - '0' as u32) as u64;
        let ghost next = digits.take(i + 1 - start);
        proof {
            assert(next.drop_last() == digits.take(i - start));
            assert(digits_value(next) == 10 * n + d);
            if all_digits(digits) {
                lemma_prefix_value(digits, i + 1 - start);
            }
        }
        if n > (u64::MAX - d) / 10 {
            return None;
        }
        n = 10 * n + d;
        i += 1;
    }
    assert(digits.take(to - start) == digits);
    Some(n)
}

/// A number is no smaller than the number that some of its leading digits make.
proof fn lemma_prefix_value(s: Seq<char>, k: int)
    requires
        0 <= k <= s.len(),
        all_digits(s),
    ensures
        digits_value(s.take(k)) <= digits_value(s),
    decreases s.len(),
{
    if k == s.len() {
        assert(s.take(k) == s);
    } else {
        let t = s.drop_last();
        assert(all_digits(t)) by {
            assert forall|i: int| 0 <= i < t.len() implies is_digit(#[trigger] t[i]) by {
                assert(t[i] == s[i]);
            }
        }
        lemma_prefix_value(t, k);
        assert(t.take(k) == s.take(k));
        assert(is_digit(s.last()));
    }
}

/// Reads an unsigned number that fits in 32 bits.
pub fn parse_u32(v: &Vec<char>, from: usize, to: usize) -> (res: Option<u32>)
    requires
        from <= to <= v.len(),
    ensures
        match res {
            Some(n) => number(v@.subrange(from as int, to as int), u32::MAX as nat) == Some(n as nat),
            None => number(v@.subrange(from as int, to as int), u32::MAX as nat) is None,
        },
{
    match parse_u64(v, from, to) {
        Some(n) if n <= u32::MAX as u64 => Some(n as u32),
        _ => None,
    }
}

/// Appends the decimal digits of `n`.
pub fn push_decimal(out: &mut String, n: u64)
    ensures
        final(out)@ == old(out)@ + decimal(n as nat),
    decreases n,
{
    if n >= 10 {
        push_decimal(out, n / 10);
    }
    let digit: char = ((n % 10) as u8 + 48) as char;
    out.push(digit);
    assert(out@ == old(out)@ + decimal(n as nat));
}

// ---------------------------------------------------------------------------
// Laws
// ---------------------------------------------------------------------------

/// Upper-case ASCII letters have their lower-case letter 32 places on; no other character
/// is changed.
pub proof fn law_ascii_lower(c: char)
    ensures
        0x41 <= c as u32 <= 0x5a ==> ascii_lower(c) as u32 == c as u32 + 32,
        !(0x41 <= c as u32 <= 0x5a) ==> ascii_lower(c) == c,
{
}

proof fn lemma_lower_letters(c: char)
    ensures
        ascii_lower(c) == '1' <==> c == '1',
        ascii_lower(c) == 't' <==> c == 't' || c == 'T',
        ascii_lower(c) == 'r' <==> c == 'r' || c == 'R',
        ascii_lower(c) == 'u' <==> c == 'u' || c == 'U',
        ascii_lower(c) == 'e' <==> c == 'e' || c == 'E',
        ascii_lower(c) == 'y' <==> c == 'y' || c == 'Y',
        ascii_lower(c) == 's' <==> c == 's' || c == 'S',
{
    law_ascii_lower(c);
}

/// A switch is on for three words, whatever white space is around them and whichever of
/// their letters are capitals; it is off where nothing is set.
pub proof fn law_switch_is_on_for_three_words(v: Seq<char>)
    ensures
        !switched_on(None),
        switched_on(Some(v)) <==> {
            let t = trimmed(v);
            ||| t == seq!['1']
            ||| t.len() == 4 && (t[0] == 't' || t[0] == 'T') && (t[1] == 'r' || t[1] == 'R') && (t[2]
                == 'u' || t[2] == 'U') && (t[3] == 'e' || t[3] == 'E')
            ||| t.len() == 3 && (t[0] == 'y' || t[0] == 'Y') && (t[1] == 'e' || t[1] == 'E') && (t[2]
                == 's' || t[2] == 'S')
        },
{
    reveal_strlit("1");
    reveal_strlit("true");
    reveal_strlit("yes");
    let t = trimmed(v);
    let word = lowered(t);
    assert forall|i: int| 0 <= i < t.len() implies #[trigger] word[i] == ascii_lower(t[i]) by {}
    if t.len() > 0 {
        lemma_lower_letters(t[0]);
    }
    if t.len() > 1 {
        lemma_lower_letters(t[1]);
    }
    if t.len() > 2 {
        lemma_lower_letters(t[2]);
    }
    if t.len() > 3 {
        lemma_lower_letters(t[3]);
    }
    assert(switched_on(Some(v)) == (word == "1"@ || word == "true"@ || word == "yes"@));
    if word == "1"@ {
        assert(word.len() == 1);
        assert(word[0] == '1');
        assert(t =~= seq!['1']);
    }
    if t == seq!['1'] {
        assert(word =~= "1"@);
    }
    if word == "true"@ {
        assert(word.len() == 4);
        assert(word[0] == 't' && word[1] == 'r' && word[2] == 'u' && word[3] == 'e');
        assert(t[0] == 't' || t[0] == 'T');
    }
    if word == "yes"@ {
        assert(word.len() == 3);
        assert(word[0] == 'y' && word[1] == 'e' && word[2] == 's');
    }
    if t.len() == 4 && (t[0] == 't' || t[0] == 'T') && (t[1] == 'r' || t[1] == 'R') && (t[2] == 'u'
        || t[2] == 'U') && (t[3] == 'e' || t[3] == 'E') {
        assert(word =~= "true"@);
    }
    if t.len() == 3 && (t[0] == 'y' || t[0] == 'Y') && (t[1] == 'e' || t[1] == 'E') && (t[2] == 's'
        || t[2] == 'S') {
        assert(word =~= "yes"@);
    }
}

/// A line feed ends a line, and takes one carriage return before it along; what follows the
/// last one is a line where it is not empty.
pub proof fn law_lines(a: Seq<char>, b: Seq<char>)
    requires
        forall|i: int| 0 <= i < a.len() ==> #[trigger] a[i] != '\n',
    ensures
        a.len() > 0 ==> lines(a) == seq![a],
        lines(Seq::<char>::empty()) == Seq::<Seq<char>>::empty(),
        a.len() == 0 || a.last() != '\r' ==> lines(a.push('\n') + b) == seq![a] + lines(b),
        lines(a.push('\r').push('\n') + b) == seq![a] + lines(b),
{
    let n = a.len() as int;
    lemma_find_unique(a, '\n', n);
    let s = a.push('\n') + b;
    assert(s[n] == '\n');
    lemma_find_unique(s, '\n', n);
    assert(s.take(n) == a);
    assert(s.skip(n + 1) == b);
    let t = a.push('\r').push('\n') + b;
    assert(t[n + 1] == '\n');
    lemma_find_unique(t, '\n', n + 1);
    assert(t.take(n + 1) == a.push('\r'));
    assert(a.push('\r').drop_last() == a);
    assert(t.skip(n + 2) == b);
}

/// Decimal digits are read by their places: another digit makes ten times as much, and
/// that digit more.
pub proof fn law_places(s: Seq<char>, c: char)
    requires
        0x30 <= c as u32 <= 0x39,
    ensures
        digits_value(Seq::<char>::empty()) == 0,
        digits_value(s.push(c)) == 10 * digits_value(s) + (c as u32 - 0x30),
{
    assert(s.push(c).drop_last() == s);
}

/// What is read as a number are digits alone, at least one, and not of a larger value than
/// is allowed; a plus sign before them makes no difference, but a second one does.
pub proof fn law_number_is_digits(s: Seq<char>, max: nat)
    ensures
        s.len() > 0 && s[0] != '+' ==> number(s, max) == (if (forall|i: int|
            0 <= i < s.len() ==> '0' <= (#[trigger] s[i]) <= '9') && digits_value(s) <= max {
            Some(digits_value(s))
        } else {
            None
        }),
        number(Seq::<char>::empty(), max) is None,
        s.len() == 0 || s[0] != '+' ==> number(seq!['+'] + s, max) == number(s, max),
        s.len() > 0 && s[0] == '+' ==> number(seq!['+'] + s, max) is None,
{
    let signed = seq!['+'] + s;
    assert(signed[0] == '+');
    assert(signed.skip(1) == s);
    if s.len() > 0 && s[0] == '+' {
        assert(!is_digit(s[0]));
    }
    if !all_digits(s) {
        let i = choose|i: int| 0 <= i < s.len() && !is_digit(#[trigger] s[i]);
        assert(!('0' <= s[i] <= '9'));
    } else {
        assert forall|i: int| 0 <= i < s.len() implies '0' <= (#[trigger] s[i]) <= '9' by {
            assert(is_digit(s[i]));
        }
    }
}

/// A number is written without leading zeros, so no two texts stand for one number.
pub proof fn law_decimal_has_no_leading_zero(n: nat)
    ensures
        n > 0 ==> decimal(n)[0] != '0',
        n == 0 ==> decimal(n) == seq!['0'],
        forall|i: int| 0 <= i < decimal(n).len() ==> '0' <= (#[trigger] decimal(n)[i]) <= '9',
        digits_value(decimal(n)) == n,
    decreases n,
{
    lemma_decimal(n);
    assert forall|i: int| 0 <= i < decimal(n).len() implies '0' <= (#[trigger] decimal(n)[i])
        <= '9' by {
        assert(is_digit(decimal(n)[i]));
    }
    if n >= 10 {
        law_decimal_has_no_leading_zero(n / 10);
        lemma_decimal(n / 10);
        assert(decimal(n)[0] == decimal(n / 10)[0]);
    }
}

} // verus!
