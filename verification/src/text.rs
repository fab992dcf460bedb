//! Text handling: the scanning, splitting and rendering the rest of the crate is built on.
//!
//! Specifications see a string as the sequence of its characters. Positions count
//! characters, not bytes.

use vstd::prelude::*;

verus! {

/// A class of characters that scanning can stop at or skip over.
#[derive(Clone, Copy)]
pub enum Class {
    /// The characters with the Unicode `White_Space` property.
    Space,
    /// The single and the double quote.
    Quote,
}

impl Class {
    /// Whether `c` belongs to the class.
    pub open spec fn has(self, c: char) -> bool {
        match self {
            Class::Space => is_space(c),
            Class::Quote => c == '\'' || c == '"',
        }
    }

    /// Whether `c` belongs to the class.
    pub fn contains(self, c: char) -> (r: bool)
        ensures
            r == self.has(c),
    {
        match self {
            Class::Space => is_whitespace(c),
            Class::Quote => c == '\'' || c == '"',
        }
    }
}

/// The Unicode `White_Space` property.
pub open spec fn is_space(c: char) -> bool {
    let u = c as u32;
    ||| 0x09 <= u <= 0x0d
    ||| u == 0x20
    ||| u == 0x85
    ||| u == 0xa0
    ||| u == 0x1680
    ||| 0x2000 <= u <= 0x200a
    ||| u == 0x2028
    ||| u == 0x2029
    ||| u == 0x202f
    ||| u == 0x205f
    ||| u == 0x3000
}

/// Whether `c` has the Unicode `White_Space` property.
pub fn is_whitespace(c: char) -> (r: bool)
    ensures
        r == is_space(c),
{
    let u: u32 = c as u32;
    (0x09 <= u && u <= 0x0d) || u == 0x20 || u == 0x85 || u == 0xa0 || u == 0x1680
        || (0x2000 <= u && u <= 0x200a) || u == 0x2028 || u == 0x2029 || u == 0x202f || u == 0x205f
        || u == 0x3000
}

/// Nothing but white space, the empty text included.
pub open spec fn is_blank_text(s: Seq<char>) -> bool {
    forall|i: int| 0 <= i < s.len() ==> is_space(#[trigger] s[i])
}

/// The first position from `i` on whose character is outside `class`, or the length.
pub open spec fn skip_class(s: Seq<char>, class: Class, i: int) -> int
    decreases s.len() - i,
{
    if i >= s.len() {
        s.len() as int
    } else if class.has(s[i]) {
        skip_class(s, class, i + 1)
    } else {
        i
    }
}

/// The first position from `i` on whose character is white space, or the length.
pub open spec fn word_end(s: Seq<char>, i: int) -> int
    decreases s.len() - i,
{
    if i >= s.len() {
        s.len() as int
    } else if is_space(s[i]) {
        i
    } else {
        word_end(s, i + 1)
    }
}

/// The first position from `i` on that holds `c`, or the length.
pub open spec fn find_char(s: Seq<char>, c: char, i: int) -> int
    decreases s.len() - i,
{
    if i >= s.len() {
        s.len() as int
    } else if s[i] == c {
        i
    } else {
        find_char(s, c, i + 1)
    }
}

/// The end of what is left of `s[..j]` once trailing characters of `class` are dropped.
pub open spec fn trimmed_end(s: Seq<char>, class: Class, j: int) -> int
    decreases j,
{
    if j <= 0 {
        0
    } else if class.has(s[j - 1]) {
        trimmed_end(s, class, j - 1)
    } else {
        j
    }
}

/// `s` without the characters of `class` at either end.
pub open spec fn trimmed(s: Seq<char>, class: Class) -> Seq<char> {
    let from = skip_class(s, class, 0);
    let to = trimmed_end(s, class, s.len() as int);
    if from <= to {
        s.subrange(from, to)
    } else {
        Seq::empty()
    }
}

/// The words of `s[i..]`: its maximal runs without white space, in order.
pub open spec fn words_from(s: Seq<char>, i: int) -> Seq<Seq<char>>
    decreases s.len() - i,
{
    let from = skip_class(s, Class::Space, i);
    if i < 0 || from >= s.len() {
        Seq::empty()
    } else {
        let to = word_end(s, from);
        proof {
            lemma_scan_bounds(s, Class::Space, i);
            lemma_word_bounds(s, from);
        }
        seq![s.subrange(from, to)] + words_from(s, to)
    }
}

/// The words of `s`.
pub open spec fn words(s: Seq<char>) -> Seq<Seq<char>> {
    words_from(s, 0)
}

/// The pieces of `s[i..]` between occurrences of `c`, empty ones included.
pub open spec fn pieces_from(s: Seq<char>, c: char, i: int) -> Seq<Seq<char>>
    decreases s.len() - i,
{
    let to = find_char(s, c, i);
    if i < 0 || to >= s.len() {
        seq![s.subrange(i, s.len() as int)]
    } else {
        proof {
            lemma_find_bounds(s, c, i);
        }
        seq![s.subrange(i, to)] + pieces_from(s, c, to + 1)
    }
}

/// Whether `s` begins with `prefix`.
pub open spec fn has_prefix(s: Seq<char>, prefix: Seq<char>) -> bool {
    prefix.len() <= s.len() && s.subrange(0, prefix.len() as int) == prefix
}

/// What follows the first `n` characters.
pub open spec fn after(s: Seq<char>, n: int) -> Seq<char> {
    s.subrange(n, s.len() as int)
}

/// The texts a vector of strings holds.
pub open spec fn texts(v: Seq<String>) -> Seq<Seq<char>> {
    Seq::new(v.len(), |i: int| v[i]@)
}

/// The parts in order with `separator` between neighbours.
pub open spec fn joined(parts: Seq<Seq<char>>, separator: Seq<char>) -> Seq<char>
    decreases parts.len(),
{
    if parts.len() == 0 {
        Seq::empty()
    } else if parts.len() == 1 {
        parts[0]
    } else {
        joined(parts.drop_last(), separator) + separator + parts.last()
    }
}

/// The character of a decimal digit.
pub open spec fn digit_char(d: nat) -> char {
    (48 + d) as char
}

/// The decimal numeral of `n`, without leading zeros.
pub open spec fn numeral(n: nat) -> Seq<char>
    decreases n,
{
    if n < 10 {
        seq![digit_char(n)]
    } else {
        numeral(n / 10).push(digit_char(n % 10))
    }
}

/// Whether `c` is an ASCII digit.
pub open spec fn is_digit(c: char) -> bool {
    48 <= c as u32 <= 57
}

/// Whether every character is an ASCII digit.
pub open spec fn all_digits(s: Seq<char>) -> bool {
    forall|i: int| 0 <= i < s.len() ==> is_digit(#[trigger] s[i])
}

/// The number a run of digits stands for.
pub open spec fn digits_value(s: Seq<char>) -> nat
    decreases s.len(),
{
    if s.len() == 0 {
        0
    } else {
        digits_value(s.drop_last()) * 10 + (s.last() as u32 - 48) as nat
    }
}

/// The 16-bit number a numeral stands for: an optional plus sign, then one or more
/// digits whose value fits.
pub open spec fn u16_value(s: Seq<char>) -> Option<u16> {
    let digits = if s.len() > 0 && s[0] == '+' {
        after(s, 1)
    } else {
        s
    };
    if digits.len() > 0 && all_digits(digits) && digits_value(digits) <= u16::MAX {
        Some(digits_value(digits) as u16)
    } else {
        None
    }
}

/// An ASCII capital turned into its small letter, any other character unchanged.
pub open spec fn lower_char(c: char) -> char {
    if 65 <= c as u32 <= 90 {
        (c as u32 + 32) as char
    } else {
        c
    }
}

/// `s` with its ASCII capitals turned into small letters.
pub open spec fn lowered(s: Seq<char>) -> Seq<char> {
    Seq::new(s.len(), |i: int| lower_char(s[i]))
}

/// The text that `{:?}` renders a string as: quoted, with the escapes of std's `Debug`.
pub uninterp spec fn debug_text(s: Seq<char>) -> Seq<char>;

/// Calls std's `Debug` rendering of `str` through `format!`. The contract only names
/// the rendering; which characters it escapes is not stated.
#[verifier::external_body]
pub(crate) fn debug_quoted(s: &str) -> (r: String)
    ensures
        r@ == debug_text(s@),
{
    format!("{:?}", s)
}

/// A scan past a class stays in bounds and passes over nothing else.
pub proof fn lemma_scan_bounds(s: Seq<char>, class: Class, i: int)
    requires
        0 <= i <= s.len(),
    ensures
        i <= skip_class(s, class, i) <= s.len(),
        skip_class(s, class, i) < s.len() ==> !class.has(s[skip_class(s, class, i)]),
        forall|k: int| i <= k < skip_class(s, class, i) ==> class.has(#[trigger] s[k]),
    decreases s.len() - i,
{
    if i < s.len() && class.has(s[i]) {
        lemma_scan_bounds(s, class, i + 1);
    }
}

/// The end of a word stays in bounds and comes after no white space.
pub proof fn lemma_word_bounds(s: Seq<char>, i: int)
    requires
        0 <= i <= s.len(),
    ensures
        i <= word_end(s, i) <= s.len(),
        i < s.len() && !is_space(s[i]) ==> i < word_end(s, i),
        forall|k: int| i <= k < word_end(s, i) ==> !is_space(#[trigger] s[k]),
    decreases s.len() - i,
{
    if i < s.len() && !is_space(s[i]) {
        lemma_word_bounds(s, i + 1);
    }
}

/// A search stays in bounds and finds the first occurrence.
pub proof fn lemma_find_bounds(s: Seq<char>, c: char, i: int)
    requires
        0 <= i <= s.len(),
    ensures
        i <= find_char(s, c, i) <= s.len(),
        find_char(s, c, i) < s.len() ==> s[find_char(s, c, i)] == c,
        forall|k: int| i <= k < find_char(s, c, i) ==> #[trigger] s[k] != c,
    decreases s.len() - i,
{
    if i < s.len() && s[i] != c {
        lemma_find_bounds(s, c, i + 1);
    }
}

proof fn lemma_word_end(s: Seq<char>, i: int, j: int)
    requires
        0 <= i <= j <= s.len(),
        forall|k: int| i <= k < j ==> !is_space(#[trigger] s[k]),
        j == s.len() || is_space(s[j]),
    ensures
        word_end(s, i) == j,
    decreases j - i,
{
    if i < j {
        lemma_word_end(s, i + 1, j);
    }
}

/// A run without white space that starts at `i` and ends at `j` is the first word from `i`
/// on.
pub proof fn lemma_first_word(s: Seq<char>, i: int, j: int)
    requires
        0 <= i < j <= s.len(),
        forall|k: int| i <= k < j ==> !is_space(#[trigger] s[k]),
        j == s.len() || is_space(s[j]),
    ensures
        words_from(s, i) == seq![s.subrange(i, j)] + words_from(s, j),
{
    assert(!Class::Space.has(s[i]));
    lemma_word_end(s, i, j);
}

/// White space before a word does not change the words.
pub proof fn lemma_skip_space(s: Seq<char>, i: int)
    requires
        0 <= i < s.len(),
        is_space(s[i]),
    ensures
        words_from(s, i) == words_from(s, i + 1),
{
    assert(Class::Space.has(s[i]));
}

/// The characters of `s` in order.
pub fn chars_of(s: &str) -> (v: Vec<char>)
    ensures
        v@ == s@,
{
    let mut v: Vec<char> = Vec::new();
    for c in it: s.chars()
        invariant
            v@ == it.seq().take(it.index()),
    {
        v.push(c);
    }
    v
}

/// Whether two texts are the same.
pub fn same(a: &str, b: &str) -> (r: bool)
    ensures
        r == (a@ == b@),
{
    a.to_owned() == b.to_owned()
}

/// The part of `s` from position `from` up to `to`.
pub fn part(s: &str, from: usize, to: usize) -> (r: String)
    requires
        from <= to <= s@.len(),
    ensures
        r@ == s@.subrange(from as int, to as int),
{
    s.substring_char(from, to).to_string()
}

/// `s` with its ASCII capitals turned into small letters.
pub fn lowercase(s: &str) -> (r: String)
    ensures
        r@ == lowered(s@),
{
    let letters = "abcdefghijklmnopqrstuvwxyz";
    proof {
        reveal_strlit("abcdefghijklmnopqrstuvwxyz");
    }
    let v = chars_of(s);
    let mut out = String::new();
    let mut i: usize = 0;
    while i < v.len()
        invariant
            v@ == s@,
            i <= v@.len(),
            out@ == lowered(s@).take(i as int),
            letters@.len() == 26,
            forall|k: int| 0 <= k < 26 ==> #[trigger] letters@[k] == (97 + k) as char,
        decreases v@.len() - i,
    {
        let ghost earlier = out@;
        let code: u32 = v[i] as u32;
        if 65 <= code && code <= 90 {
            let at: usize = (code - 65) as usize;
            out.append(part(letters, at, at + 1).as_str());
        } else {
            out.append(part(s, i, i + 1).as_str());
        }
        proof {
            assert(out@ =~= earlier.push(lower_char(s@[i as int])));
            assert(lowered(s@).take(i + 1) =~= lowered(s@).take(i as int).push(
                lower_char(s@[i as int]),
            ));
        }
        i = i + 1;
    }
    proof {
        assert(lowered(s@).take(i as int) =~= lowered(s@));
    }
    out
}

/// The number of characters in `s`.
pub fn length(s: &str) -> (n: usize)
    ensures
        n == s@.len(),
{
    s.unicode_len()
}

fn scan_class(v: &Vec<char>, class: Class, start: usize) -> (r: usize)
    requires
        start <= v@.len(),
    ensures
        r == skip_class(v@, class, start as int),
        start <= r <= v@.len(),
{
    let mut i: usize = start;
    while i < v.len() && class.contains(v[i])
        invariant
            start <= i <= v@.len(),
            skip_class(v@, class, start as int) == skip_class(v@, class, i as int),
        decreases v@.len() - i,
    {
        i = i + 1;
    }
    i
}

fn scan_word(v: &Vec<char>, start: usize) -> (r: usize)
    requires
        start <= v@.len(),
    ensures
        r == word_end(v@, start as int),
        start <= r <= v@.len(),
{
    let mut i: usize = start;
    while i < v.len() && !is_whitespace(v[i])
        invariant
            start <= i <= v@.len(),
            word_end(v@, start as int) == word_end(v@, i as int),
        decreases v@.len() - i,
    {
        i = i + 1;
    }
    i
}

fn scan_char(v: &Vec<char>, c: char, start: usize) -> (r: usize)
    requires
        start <= v@.len(),
    ensures
        r == find_char(v@, c, start as int),
        start <= r <= v@.len(),
{
    let mut i: usize = start;
    while i < v.len() && v[i] != c
        invariant
            start <= i <= v@.len(),
            find_char(v@, c, start as int) == find_char(v@, c, i as int),
        decreases v@.len() - i,
    {
        i = i + 1;
    }
    i
}

fn scan_back(v: &Vec<char>, class: Class) -> (r: usize)
    ensures
        r == trimmed_end(v@, class, v@.len() as int),
        r <= v@.len(),
{
    let mut j: usize = v.len();
    while j > 0 && class.contains(v[j - 1])
        invariant
            j <= v@.len(),
            trimmed_end(v@, class, v@.len() as int) == trimmed_end(v@, class, j as int),
        decreases j,
    {
        j = j - 1;
    }
    j
}

/// The position of the first `c` in `s`, if there is one.
pub fn position(s: &str, c: char) -> (r: Option<usize>)
    ensures
        match r {
            Some(i) => i == find_char(s@, c, 0) && i < s@.len(),
            None => find_char(s@, c, 0) == s@.len(),
        },
{
    let v = chars_of(s);
    let i: usize = scan_char(&v, c, 0);
    if i < v.len() {
        Some(i)
    } else {
        None
    }
}

/// `s` without the characters of `class` at either end.
pub fn trim(s: &str, class: Class) -> (r: String)
    ensures
        r@ == trimmed(s@, class),
{
    let v = chars_of(s);
    let from: usize = scan_class(&v, class, 0);
    let to: usize = scan_back(&v, class);
    if from <= to {
        part(s, from, to)
    } else {
        String::new()
    }
}

/// Whether `s` is empty once white space is trimmed off.
pub fn is_blank(s: &str) -> (r: bool)
    ensures
        r == is_blank_text(s@),
{
    let v = chars_of(s);
    let i: usize = scan_class(&v, Class::Space, 0);
    proof {
        lemma_scan_bounds(s@, Class::Space, 0);
    }
    i == v.len()
}

/// The words of `s`, its runs without white space.
pub fn split_whitespace(s: &str) -> (r: Vec<String>)
    ensures
        texts(r@) == words(s@),
{
    let v = chars_of(s);
    let mut out: Vec<String> = Vec::new();
    let mut i: usize = scan_class(&v, Class::Space, 0);
    proof {
        assert(texts(out@) + words_from(s@, 0) =~= words(s@));
    }
    let ghost mut at: int = 0;
    while i < v.len()
        invariant
            v@ == s@,
            0 <= at <= i <= v@.len(),
            i == skip_class(s@, Class::Space, at),
            texts(out@) + words_from(s@, at) == words(s@),
        decreases v@.len() - i,
    {
        let to: usize = scan_word(&v, i);
        let word = part(s, i, to);
        let ghost before = texts(out@);
        proof {
            lemma_scan_bounds(s@, Class::Space, at);
            lemma_word_bounds(s@, i as int);
        }
        out.push(word);
        proof {
            assert(texts(out@) =~= before.push(word@));
            assert(words_from(s@, at) == seq![word@] + words_from(s@, to as int));
            assert(before.push(word@) + words_from(s@, to as int) =~= before + (seq![word@]
                + words_from(s@, to as int)));
            at = to as int;
        }
        i = scan_class(&v, Class::Space, to);
    }
    proof {
        assert(words_from(s@, at) =~= Seq::empty());
        assert(texts(out@) + words_from(s@, at) =~= texts(out@));
    }
    out
}

/// The pieces of `s` between occurrences of `c`.
pub fn split(s: &str, c: char) -> (r: Vec<String>)
    ensures
        texts(r@) == pieces_from(s@, c, 0),
{
    let v = chars_of(s);
    let mut out: Vec<String> = Vec::new();
    let mut from: usize = 0;
    let mut to: usize = scan_char(&v, c, 0);
    proof {
        assert(texts(out@) + pieces_from(s@, c, 0) =~= pieces_from(s@, c, 0));
    }
    while to < v.len()
        invariant
            v@ == s@,
            from <= to <= v@.len(),
            to == find_char(s@, c, from as int),
            texts(out@) + pieces_from(s@, c, from as int) == pieces_from(s@, c, 0),
        decreases v@.len() - to,
    {
        let piece = part(s, from, to);
        let ghost before = texts(out@);
        out.push(piece);
        proof {
            assert(texts(out@) =~= before.push(piece@));
            assert(pieces_from(s@, c, from as int) == seq![piece@] + pieces_from(s@, c, to + 1));
            assert(before.push(piece@) + pieces_from(s@, c, to + 1) =~= before + (seq![piece@]
                + pieces_from(s@, c, to + 1)));
        }
        from = to + 1;
        to = scan_char(&v, c, from);
    }
    let piece = part(s, from, v.len());
    let ghost before = texts(out@);
    out.push(piece);
    proof {
        assert(texts(out@) =~= before.push(piece@));
        assert(pieces_from(s@, c, from as int) =~= seq![piece@]);
        assert(before.push(piece@) =~= before + seq![piece@]);
    }
    out
}

/// Whether `s` begins with `prefix`.
pub fn starts_with(s: &str, prefix: &str) -> (r: bool)
    ensures
        r == has_prefix(s@, prefix@),
{
    let n: usize = length(prefix);
    if n > length(s) {
        return false;
    }
    same(s.substring_char(0, n), prefix)
}

/// What follows `prefix` in `s`, if `s` begins with it.
pub fn strip_prefix(s: &str, prefix: &str) -> (r: Option<String>)
    ensures
        match r {
            Some(rest) => has_prefix(s@, prefix@) && rest@ == after(s@, prefix@.len() as int),
            None => !has_prefix(s@, prefix@),
        },
{
    if starts_with(s, prefix) {
        Some(part(s, length(prefix), length(s)))
    } else {
        None
    }
}

/// The parts in order with `separator` between neighbours.
pub fn join(parts: &Vec<String>, separator: &str) -> (r: String)
    ensures
        r@ == joined(texts(parts@), separator@),
{
    let mut out = String::new();
    let ghost all = texts(parts@);
    let mut i: usize = 0;
    while i < parts.len()
        invariant
            all == texts(parts@),
            i <= parts@.len(),
            out@ == joined(all.take(i as int), separator@),
        decreases parts@.len() - i,
    {
        proof {
            assert(all.take(i + 1).drop_last() =~= all.take(i as int));
            assert(all.take(i + 1).last() == parts@[i as int]@);
        }
        if i > 0 {
            out.append(separator);
        }
        out.append(parts[i].as_str());
        proof {
            if i == 0 {
                assert(out@ =~= parts@[0]@);
            }
        }
        i = i + 1;
    }
    proof {
        assert(all.take(parts@.len() as int) =~= all);
    }
    out
}

fn digit_text(d: u64) -> (r: &'static str)
    requires
        d < 10,
    ensures
        r@ == seq![digit_char(d as nat)],
{
    proof {
        reveal_strlit("0");
        reveal_strlit("1");
        reveal_strlit("2");
        reveal_strlit("3");
        reveal_strlit("4");
        reveal_strlit("5");
        reveal_strlit("6");
        reveal_strlit("7");
        reveal_strlit("8");
        reveal_strlit("9");
        assert("0"@ =~= seq!['0'] && "1"@ =~= seq!['1'] && "2"@ =~= seq!['2'] && "3"@ =~= seq!['3']
            && "4"@ =~= seq!['4'] && "5"@ =~= seq!['5'] && "6"@ =~= seq!['6'] && "7"@ =~= seq!['7']
            && "8"@ =~= seq!['8'] && "9"@ =~= seq!['9']);
    }
    if d == 0 {
        "0"
    } else if d == 1 {
        "1"
    } else if d == 2 {
        "2"
    } else if d == 3 {
        "3"
    } else if d == 4 {
        "4"
    } else if d == 5 {
        "5"
    } else if d == 6 {
        "6"
    } else if d == 7 {
        "7"
    } else if d == 8 {
        "8"
    } else {
        "9"
    }
}

/// The decimal numeral of `n`.
pub fn decimal(n: u64) -> (r: String)
    ensures
        r@ == numeral(n as nat),
    decreases n,
{
    if n < 10 {
        digit_text(n).to_string()
    } else {
        let mut out = decimal(n / 10);
        let ghost head = out@;
        out.append(digit_text(n % 10));
        proof {
            assert(out@ =~= head.push(digit_char((n % 10) as nat)));
        }
        out
    }
}

/// Values of digit runs only grow as digits are added.
proof fn lemma_digits_grow(s: Seq<char>, i: int)
    requires
        0 <= i <= s.len(),
    ensures
        digits_value(s.take(i)) <= digits_value(s),
    decreases s.len() - i,
{
    if i < s.len() {
        lemma_digits_grow(s, i + 1);
        let longer = s.take(i + 1);
        assert(longer.drop_last() =~= s.take(i));
    } else {
        assert(s.take(i) =~= s);
    }
}

/// The 16-bit number that `s` writes in decimal, if it does.
pub fn parse_u16(s: &str) -> (r: Option<u16>)
    ensures
        r == u16_value(s@),
{
    let v = chars_of(s);
    let start: usize = if v.len() > 0 && v[0] == '+' {
        1
    } else {
        0
    };
    let ghost digits = if s@.len() > 0 && s@[0] == '+' {
        after(s@, 1)
    } else {
        s@
    };
    if v.len() == start {
        return None;
    }
    let mut value: u32 = 0;
    let mut i: usize = start;
    while i < v.len()
        invariant
            v@ == s@,
            start <= i <= v@.len(),
            digits.len() == v@.len() - start,
            digits.len() > 0,
            u16_value(s@) == (if digits.len() > 0 && all_digits(digits) && digits_value(digits)
                <= u16::MAX {
                Some(digits_value(digits) as u16)
            } else {
                None
            }),
            forall|k: int| 0 <= k < digits.len() ==> digits[k] == #[trigger] v@[start + k],
            forall|k: int| 0 <= k < i - start ==> is_digit(#[trigger] digits[k]),
            value == digits_value(digits.take(i - start)),
            value <= u16::MAX,
        decreases v@.len() - i,
    {
        let u: u32 = v[i] as u32;
        proof {
            assert(digits[i - start] == v@[start + (i - start)]);
        }
        if u < 48 || u > 57 {
            proof {
                assert(!is_digit(digits[i - start]));
            }
            return None;
        }
        proof {
            let longer = digits.take(i - start + 1);
            assert(longer.drop_last() =~= digits.take(i - start));
            assert(longer.last() == digits[i - start]);
            lemma_digits_grow(digits, i - start + 1);
        }
        value = value * 10 + (u - 48);
        if value > 65535 {
            return None;
        }
        i = i + 1;
    }
    proof {
        assert(digits.take(i - start) =~= digits);
    }
    Some(value as u16)
}

/// A numeral is all digits, is not empty and stands for the number it was made of.
pub proof fn lemma_numeral_value(n: nat)
    ensures
        numeral(n).len() > 0,
        all_digits(numeral(n)),
        digits_value(numeral(n)) == n,
    decreases n,
{
    if n < 10 {
        let s = numeral(n);
        assert(s.drop_last() =~= Seq::empty());
        assert(digits_value(s.drop_last()) == 0);
    } else {
        lemma_numeral_value(n / 10);
        let s = numeral(n);
        assert(s.drop_last() =~= numeral(n / 10));
        assert(s.last() == digit_char(n % 10));
    }
}

/// Reading back the numeral of a 16-bit number gives that number.
pub proof fn lemma_u16_reads_back(n: u16)
    ensures
        u16_value(numeral(n as nat)) == Some(n),
{
    lemma_numeral_value(n as nat);
    assert(is_digit(numeral(n as nat)[0]));
}

/// Scanning past what comes first, a class ends where it ends in the rest.
proof fn lemma_skip_in_rest(a: Seq<char>, b: Seq<char>, class: Class, j: int)
    requires
        0 <= j <= b.len(),
    ensures
        skip_class(a + b, class, a.len() + j) == a.len() + skip_class(b, class, j),
    decreases b.len() - j,
{
    if j < b.len() {
        assert((a + b)[a.len() + j] == b[j]);
        if class.has(b[j]) {
            lemma_skip_in_rest(a, b, class, j + 1);
        }
    }
}

/// Scanning past what comes first, a word ends where it ends in the rest.
proof fn lemma_word_in_rest(a: Seq<char>, b: Seq<char>, j: int)
    requires
        0 <= j <= b.len(),
    ensures
        word_end(a + b, a.len() + j) == a.len() + word_end(b, j),
    decreases b.len() - j,
{
    if j < b.len() {
        assert((a + b)[a.len() + j] == b[j]);
        if !is_space(b[j]) {
            lemma_word_in_rest(a, b, j + 1);
        }
    }
}

/// Past what comes first, the words are those of the rest.
proof fn lemma_words_in_rest(a: Seq<char>, b: Seq<char>, j: int)
    requires
        0 <= j <= b.len(),
    ensures
        words_from(a + b, a.len() + j) == words_from(b, j),
    decreases b.len() - j,
{
    lemma_skip_in_rest(a, b, Class::Space, j);
    lemma_scan_bounds(b, Class::Space, j);
    let from = skip_class(b, Class::Space, j);
    if from < b.len() {
        lemma_word_in_rest(a, b, from);
        lemma_word_bounds(b, from);
        let to = word_end(b, from);
        lemma_words_in_rest(a, b, to);
        assert((a + b).subrange(a.len() + from, a.len() + to) =~= b.subrange(from, to));
    }
}

/// A word ends at white space or at the end.
proof fn lemma_word_stops(s: Seq<char>, i: int)
    requires
        0 <= i <= s.len(),
    ensures
        word_end(s, i) < s.len() ==> is_space(s[word_end(s, i)]),
    decreases s.len() - i,
{
    if i < s.len() && !is_space(s[i]) {
        lemma_word_stops(s, i + 1);
    }
}

proof fn lemma_words_apart(a: Seq<char>, c: char, b: Seq<char>, i: int)
    requires
        is_space(c),
        0 <= i <= a.len(),
    ensures
        words_from(a + seq![c] + b, i) == words_from(a, i) + words(b),
    decreases a.len() - i,
{
    let whole = a + seq![c] + b;
    let n = a.len() as int;
    assert(whole[n] == c);
    if i == n {
        lemma_skip_space(whole, n);
        assert(whole =~= (a + seq![c]) + b);
        lemma_words_in_rest(a + seq![c], b, 0);
        assert(words_from(a, n) =~= Seq::empty());
        assert(Seq::<Seq<char>>::empty() + words(b) =~= words(b));
    } else if is_space(a[i]) {
        assert(whole[i] == a[i]);
        lemma_skip_space(whole, i);
        lemma_skip_space(a, i);
        lemma_words_apart(a, c, b, i + 1);
    } else {
        let j = word_end(a, i);
        lemma_word_bounds(a, i);
        lemma_word_stops(a, i);
        assert forall|k: int| i <= k < j implies !is_space(#[trigger] whole[k]) by {
            assert(whole[k] == a[k]);
        }
        assert(is_space(whole[j])) by {
            if j < n {
                assert(whole[j] == a[j]);
            }
        }
        lemma_first_word(a, i, j);
        lemma_first_word(whole, i, j);
        assert(whole.subrange(i, j) =~= a.subrange(i, j));
        lemma_words_apart(a, c, b, j);
        assert(words_from(whole, i) =~= words_from(a, i) + words(b));
    }
}

/// The words of a text are those before and those after any white space in it, and a text
/// without white space is one word, or none where it is empty.
pub proof fn law_white_space_parts_the_words(a: Seq<char>, c: char, b: Seq<char>)
    requires
        is_space(c),
    ensures
        words(a + seq![c] + b) == words(a) + words(b),
        a.len() == 0 ==> words(a) == Seq::<Seq<char>>::empty(),
        a.len() > 0 && (forall|i: int| 0 <= i < a.len() ==> !is_space(#[trigger] a[i])) ==> words(a)
            == seq![a],
{
    lemma_words_apart(a, c, b, 0);
    if a.len() > 0 && (forall|i: int| 0 <= i < a.len() ==> !is_space(#[trigger] a[i])) {
        lemma_first_word(a, 0, a.len() as int);
        assert(a.subrange(0, a.len() as int) =~= a);
        assert(words_from(a, a.len() as int) =~= Seq::empty());
        assert(seq![a] + Seq::<Seq<char>>::empty() =~= seq![a]);
    }
}

/// The digits are the ten characters from zero to nine.
pub proof fn law_digits_run_from_zero_to_nine(c: char)
    ensures
        is_digit(c) <==> c == '0' || c == '1' || c == '2' || c == '3' || c == '4' || c == '5' || c
            == '6' || c == '7' || c == '8' || c == '9',
{
}

/// Of the ASCII characters the space and the five controls from the tab on are white space,
/// and no visible one is.
pub proof fn law_visible_characters_are_no_white_space(c: char)
    ensures
        is_space(' ') && is_space('\t') && is_space('\n') && is_space('\r'),
        c as u32 <= 0x7f ==> (is_space(c) <==> c as u32 == 32 || 9 <= c as u32 <= 13),
        Class::Space.has(c) <==> is_space(c),
        Class::Quote.has(c) <==> c == '\'' || c == '"',
{
}

proof fn lemma_find_in_rest(a: Seq<char>, b: Seq<char>, c: char, j: int)
    requires
        0 <= j <= b.len(),
    ensures
        find_char(a + b, c, a.len() + j) == a.len() + find_char(b, c, j),
    decreases b.len() - j,
{
    if j < b.len() {
        assert((a + b)[a.len() + j] == b[j]);
        if b[j] != c {
            lemma_find_in_rest(a, b, c, j + 1);
        }
    }
}

proof fn lemma_pieces_in_rest(a: Seq<char>, b: Seq<char>, c: char, j: int)
    requires
        0 <= j <= b.len(),
    ensures
        pieces_from(a + b, c, a.len() + j) == pieces_from(b, c, j),
    decreases b.len() - j,
{
    lemma_find_in_rest(a, b, c, j);
    lemma_find_bounds(b, c, j);
    let to = find_char(b, c, j);
    assert((a + b).subrange(a.len() + j, a.len() + to) =~= b.subrange(j, to));
    if to < b.len() {
        lemma_pieces_in_rest(a, b, c, to + 1);
    } else {
        assert((a + b).subrange(a.len() + j, (a + b).len() as int) =~= b.subrange(
            j,
            b.len() as int,
        ));
    }
}

/// The first piece of a text is what comes before the first separator, the others are the
/// pieces of what follows it; a text without a separator is one piece.
pub proof fn law_separators_part_the_pieces(a: Seq<char>, c: char, b: Seq<char>)
    requires
        forall|i: int| 0 <= i < a.len() ==> #[trigger] a[i] != c,
    ensures
        pieces_from(a + seq![c] + b, c, 0) == seq![a] + pieces_from(b, c, 0),
        pieces_from(a, c, 0) == seq![a],
{
    let whole = a + seq![c] + b;
    let n = a.len() as int;
    assert(whole[n] == c);
    lemma_find_bounds(whole, c, 0);
    let to = find_char(whole, c, 0);
    assert(to == n) by {
        if to < n {
            assert(whole[to] == a[to]);
        }
    }
    assert(whole =~= (a + seq![c]) + b);
    lemma_pieces_in_rest(a + seq![c], b, c, 0);
    assert(whole.subrange(0, n) =~= a);
    lemma_find_bounds(a, c, 0);
    assert(a.subrange(0, n) =~= a);
}

proof fn lemma_skip_all(s: Seq<char>, class: Class, i: int, to: int)
    requires
        0 <= i <= to <= s.len(),
        forall|k: int| i <= k < to ==> class.has(#[trigger] s[k]),
        to == s.len() || !class.has(s[to]),
    ensures
        skip_class(s, class, i) == to,
    decreases to - i,
{
    if i < to {
        lemma_skip_all(s, class, i + 1, to);
    }
}

proof fn lemma_drop_all(s: Seq<char>, class: Class, from: int, j: int)
    requires
        0 <= from <= j <= s.len(),
        forall|k: int| from <= k < j ==> class.has(#[trigger] s[k]),
        from == 0 || !class.has(s[from - 1]),
    ensures
        trimmed_end(s, class, j) == from,
    decreases j,
{
    if from < j {
        assert(class.has(s[j - 1]));
        lemma_drop_all(s, class, from, j - 1);
    }
}

/// Trimming takes the characters of the class off both ends and nothing else: what is left is
/// the part between the first and the last character outside the class. Of a text that holds
/// no other characters nothing is left.
pub proof fn law_trimming_leaves_the_middle(
    front: Seq<char>,
    middle: Seq<char>,
    back: Seq<char>,
    class: Class,
)
    requires
        forall|i: int| 0 <= i < front.len() ==> class.has(#[trigger] front[i]),
        forall|i: int| 0 <= i < back.len() ==> class.has(#[trigger] back[i]),
        middle.len() > 0 ==> !class.has(middle[0]) && !class.has(middle.last()),
    ensures
        trimmed(front + middle + back, class) == middle,
{
    let s = front + middle + back;
    let a = front.len() as int;
    let b = a + middle.len();
    if middle.len() > 0 {
        assert forall|k: int| 0 <= k < a implies class.has(#[trigger] s[k]) by {
            assert(s[k] == front[k]);
        }
        assert forall|k: int| b <= k < s.len() implies class.has(#[trigger] s[k]) by {
            assert(s[k] == back[k - b]);
        }
        assert(s[a] == middle[0]);
        assert(s[b - 1] == middle.last());
        lemma_skip_all(s, class, 0, a);
        lemma_drop_all(s, class, b as int, s.len() as int);
        assert(s.subrange(a, b as int) =~= middle);
    } else {
        assert forall|k: int| 0 <= k < s.len() implies class.has(#[trigger] s[k]) by {
            if k < a {
                assert(s[k] == front[k]);
            } else {
                assert(s[k] == back[k - a]);
            }
        }
        lemma_skip_all(s, class, 0, s.len() as int);
        lemma_drop_all(s, class, 0, s.len() as int);
        assert(trimmed(s, class) =~= middle);
    }
}

/// A prefix and what follows it make up the text, and a text begins with what was put in
/// front of it.
pub proof fn law_a_prefix_and_its_rest_make_up_the_text(s: Seq<char>, prefix: Seq<char>)
    ensures
        has_prefix(s, prefix) ==> prefix + after(s, prefix.len() as int) == s,
        has_prefix(prefix + s, prefix),
        after(prefix + s, prefix.len() as int) == s,
{
    if has_prefix(s, prefix) {
        let front = s.subrange(0, prefix.len() as int);
        assert forall|i: int| 0 <= i < prefix.len() implies s[i] == #[trigger] prefix[i] by {
            assert(front[i] == s[i]);
        }
        assert(prefix + after(s, prefix.len() as int) =~= s);
    }
    assert((prefix + s).subrange(0, prefix.len() as int) =~= prefix);
    assert(after(prefix + s, prefix.len() as int) =~= s);
}

/// Joining puts the separator before each part but the first.
pub proof fn law_joining_separates_neighbours(
    parts: Seq<Seq<char>>,
    part: Seq<char>,
    separator: Seq<char>,
)
    ensures
        parts.len() == 0 ==> joined(parts, separator) == Seq::<char>::empty(),
        joined(seq![part], separator) == part,
        parts.len() > 0 ==> joined(parts.push(part), separator) == joined(parts, separator)
            + separator + part,
{
    assert(parts.push(part).drop_last() =~= parts);
}

/// Small letters take the place of the ASCII capitals, one for one; every other character
/// stays, so doing it again changes nothing.
pub proof fn law_only_capitals_are_lowered(s: Seq<char>)
    ensures
        lowered(s).len() == s.len(),
        forall|i: int|
            0 <= i < s.len() && 65 <= s[i] as u32 <= 90 ==> (#[trigger] lowered(s)[i]) as u32
                == s[i] as u32 + 32,
        forall|i: int|
            0 <= i < s.len() && !(65 <= s[i] as u32 <= 90) ==> #[trigger] lowered(s)[i] == s[i],
        lowered(lowered(s)) == lowered(s),
{
    assert(lowered(lowered(s)) =~= lowered(s));
}

/// A number is read back from its numeral, with or without a plus sign; a numeral beyond 16
/// bits is not read, nor is a text with anything but digits after the sign, or with none.
pub proof fn law_a_port_is_read_from_its_numeral(n: nat, s: Seq<char>)
    ensures
        n <= 65535 ==> u16_value(numeral(n)) == Some(n as u16) && u16_value(seq!['+'] + numeral(n))
            == Some(n as u16),
        n > 65535 ==> u16_value(numeral(n)) is None,
        (exists|i: int| 1 <= i < s.len() && !is_digit(#[trigger] s[i])) ==> u16_value(
            s,
        ) is None,
        s.len() > 0 && all_digits(s) && digits_value(s) <= 65535 ==> u16_value(s) == Some(
            digits_value(s) as u16,
        ) && u16_value(seq!['+'] + s) == Some(digits_value(s) as u16),
        s.len() > 0 && all_digits(s) && digits_value(s) > 65535 ==> u16_value(s) is None
            && u16_value(seq!['+'] + s) is None,
        s.len() == 0 ==> u16_value(s) is None,
        s.len() == 1 && !is_digit(s[0]) ==> u16_value(s) is None,
        s.len() > 0 && s[0] != '+' && !is_digit(s[0]) ==> u16_value(s) is None,
{
    lemma_numeral_value(n);
    let digits = numeral(n);
    assert(is_digit(digits[0]));
    assert(after(seq!['+'] + digits, 1) =~= digits);
    assert(after(seq!['+'] + s, 1) =~= s);
    if s.len() > 0 && all_digits(s) {
        assert(is_digit(s[0]));
    }
    if exists|i: int| 1 <= i < s.len() && !is_digit(#[trigger] s[i]) {
        let i = choose|i: int| 1 <= i < s.len() && !is_digit(#[trigger] s[i]);
        if s[0] == '+' {
            assert(after(s, 1)[i - 1] == s[i]);
        }
    }
}

/// A numeral is made of digits, does not begin with zero unless it is the number, and stands
/// for the number: it grows by the last digit of the number.
pub proof fn law_a_numeral_stands_for_its_number(n: nat)
    ensures
        numeral(n).len() > 0,
        forall|i: int| 0 <= i < numeral(n).len() ==> is_digit(#[trigger] numeral(n)[i]),
        digits_value(numeral(n)) == n,
        numeral(n)[0] == '0' ==> n == 0,
    decreases n,
{
    lemma_numeral_value(n);
    if n >= 10 {
        law_a_numeral_stands_for_its_number(n / 10);
        assert(numeral(n)[0] == numeral(n / 10)[0]);
    }
}

/// A run of digits stands for ten times what it stood for and the digit that is added.
pub proof fn law_a_digit_more_is_ten_times_as_much(digits: Seq<char>, d: char)
    requires
        is_digit(d),
    ensures
        digits_value(Seq::<char>::empty()) == 0,
        digits_value(digits.push(d)) == 10 * digits_value(digits) + (d as u32 - 48),
{
    assert(digits.push(d).drop_last() =~= digits);
}

} // verus!
