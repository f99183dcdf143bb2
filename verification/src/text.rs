//! Text primitives over sequences of characters.
//!
//! Every function here works on `&[char]`, so that the rest of the crate can
//! cut, compare and assemble text without leaving verified code. The meaning
//! of each operation is a spec function over `Seq<char>`.
use vstd::prelude::*;
use vstd::slice::{slice_subrange, slice_to_vec};

verus! {

/// `String::push` appends one character.
pub assume_specification [String::push](s: &mut String, c: char)
    ensures
        final(s)@ == old(s)@.push(c),
;

/// The characters of a string, in order.
pub fn chars_of(s: &str) -> (r: Vec<char>)
    ensures
        r@ == s@,
{
    let mut r: Vec<char> = Vec::new();
    for c in it: s.chars()
        invariant
            r@ == s@.take(it.index()),
            it.seq() == s@,
    {
        r.push(c);
    }
    r
}

/// The string that holds the given characters.
pub fn string_of(cs: &[char]) -> (r: String)
    ensures
        r@ == cs@,
{
    let mut r = String::new();
    for i in 0..cs.len()
        invariant
            r@ == cs@.take(i as int),
    {
        r.push(cs[i]);
    }
    r
}

/// The texts held by a sequence of strings.
pub open spec fn strings(v: Seq<String>) -> Seq<Seq<char>> {
    Seq::new(v.len(), |i: int| v[i]@)
}

/// The texts held by a sequence of character vectors.
pub open spec fn texts(v: Seq<Vec<char>>) -> Seq<Seq<char>> {
    Seq::new(v.len(), |i: int| v[i]@)
}

/// The text held by an optional string.
pub open spec fn text_of(v: Option<String>) -> Option<Seq<char>> {
    match v {
        Some(s) => Some(s@),
        None => None,
    }
}

/// A clone of a list of strings, text by text.
pub fn clone_strings(v: &Vec<String>) -> (r: Vec<String>)
    ensures
        strings(r@) == strings(v@),
{
    let mut r: Vec<String> = Vec::new();
    for i in 0..v.len()
        invariant
            r.len() == i,
            forall|k: int| 0 <= k < i ==> r@[k]@ == v@[k]@,
    {
        r.push(v[i].clone());
    }
    r
}

// ---------------------------------------------------------------------------
// Character classes
// ---------------------------------------------------------------------------

/// The Unicode `White_Space` property.
pub open spec fn is_white(c: char) -> bool {
    let n = c as int;
    ||| 0x9 <= n <= 0xd
    ||| n == 0x20
    ||| n == 0x85
    ||| n == 0xa0
    ||| n == 0x1680
    ||| 0x2000 <= n <= 0x200a
    ||| n == 0x2028
    ||| n == 0x2029
    ||| n == 0x202f
    ||| n == 0x205f
    ||| n == 0x3000
}

/// Whether a character is white space.
pub fn white(c: char) -> (r: bool)
    ensures
        r == is_white(c),
{
    let n: u32 = c as u32;
    (0x9 <= n && n <= 0xd) || n == 0x20 || n == 0x85 || n == 0xa0 || n == 0x1680 || (0x2000 <= n
        && n <= 0x200a) || n == 0x2028 || n == 0x2029 || n == 0x202f || n == 0x205f || n == 0x3000
}

/// The sets of characters that callers strip from the ends of a text.
#[derive(Clone, Copy)]
pub enum CharClass {
    /// White space.
    White,
    /// White space and the full stop.
    DotOrWhite,
    /// The two square brackets.
    Bracket,
}

impl CharClass {
    /// Whether the class holds a character.
    pub open spec fn holds(self, c: char) -> bool {
        match self {
            CharClass::White => is_white(c),
            CharClass::DotOrWhite => c == '.' || is_white(c),
            CharClass::Bracket => c == '[' || c == ']',
        }
    }

    /// Whether the class holds a character.
    pub fn has(self, c: char) -> (r: bool)
        ensures
            r == self.holds(c),
    {
        match self {
            CharClass::White => white(c),
            CharClass::DotOrWhite => c == '.' || white(c),
            CharClass::Bracket => c == '[' || c == ']',
        }
    }
}

/// The lower-case form of an ASCII letter; any other character as it is.
pub open spec fn lower_char(c: char) -> char {
    if 'A' <= c && c <= 'Z' {
        ((c as u8 + 32) as u8) as char
    } else {
        c
    }
}

/// A text with its ASCII letters in lower case.
pub open spec fn lower(s: Seq<char>) -> Seq<char> {
    Seq::new(s.len(), |i: int| lower_char(s[i]))
}

/// Lower-cases the ASCII letters of a text.
pub fn to_lower(s: &[char]) -> (r: Vec<char>)
    ensures
        r@ == lower(s@),
{
    let mut r: Vec<char> = Vec::new();
    for i in 0..s.len()
        invariant
            r@ == lower(s@).take(i as int),
    {
        let c = s[i];
        let l = if 'A' <= c && c <= 'Z' {
            ((c as u8) + 32) as char
        } else {
            c
        };
        r.push(l);
    }
    r
}

// ---------------------------------------------------------------------------
// Trimming
// ---------------------------------------------------------------------------

/// A text without the leading characters of a class.
pub open spec fn trim_start(s: Seq<char>, class: CharClass) -> Seq<char>
    decreases s.len(),
{
    if s.len() > 0 && class.holds(s[0]) {
        trim_start(s.drop_first(), class)
    } else {
        s
    }
}

/// A text without the trailing characters of a class.
pub open spec fn trim_end(s: Seq<char>, class: CharClass) -> Seq<char>
    decreases s.len(),
{
    if s.len() > 0 && class.holds(s.last()) {
        trim_end(s.drop_last(), class)
    } else {
        s
    }
}

/// A text without the leading and trailing characters of a class.
pub open spec fn trim_class(s: Seq<char>, class: CharClass) -> Seq<char> {
    trim_end(trim_start(s, class), class)
}

/// What is left of a text after trimming its end does not end with a character
/// of the class.
pub proof fn lemma_trim_end(s: Seq<char>, class: CharClass)
    ensures
        trim_end(s, class).len() > 0 ==> !class.holds(trim_end(s, class).last()),
    decreases s.len(),
{
    if s.len() > 0 && class.holds(s.last()) {
        lemma_trim_end(s.drop_last(), class);
    }
}

/// Trimming the end of a text cuts off the characters of the class and no
/// others.
pub(crate) proof fn lemma_trim_end_cuts(s: Seq<char>, class: CharClass)
    ensures
        trim_end(s, class).len() <= s.len(),
        trim_end(s, class) == s.take(trim_end(s, class).len() as int),
        forall|k: int| trim_end(s, class).len() <= k < s.len() ==> class.holds(#[trigger] s[k]),
    decreases s.len(),
{
    if s.len() > 0 && class.holds(s.last()) {
        let t = s.drop_last();
        lemma_trim_end_cuts(t, class);
        assert(trim_end(s, class) =~= s.take(trim_end(s, class).len() as int));
        assert forall|k: int| trim_end(s, class).len() <= k < s.len() implies class.holds(
            #[trigger] s[k],
        ) by {
            if k < t.len() {
                assert(t[k] == s[k]);
            }
        }
    } else {
        assert(s =~= s.take(s.len() as int));
    }
}

/// What ends in no character of the class is what is left when only such
/// characters follow it.
pub(crate) proof fn lemma_trim_end_is(s: Seq<char>, class: CharClass, n: int)
    requires
        0 < n <= s.len(),
        !class.holds(s[n - 1]),
        forall|k: int| n <= k < s.len() ==> class.holds(#[trigger] s[k]),
    ensures
        trim_end(s, class) == s.take(n),
    decreases s.len(),
{
    if n < s.len() {
        let t = s.drop_last();
        assert(class.holds(s[s.len() - 1]));
        lemma_trim_end_is(t, class, n);
        assert(t.take(n) =~= s.take(n));
    } else {
        assert(s.take(n) =~= s);
    }
}

/// A text without leading and trailing white space.
pub open spec fn trim(s: Seq<char>) -> Seq<char> {
    trim_class(s, CharClass::White)
}

/// Strips the characters of a class from both ends.
pub fn trimmed_class<'a>(s: &'a [char], class: CharClass) -> (r: &'a [char])
    ensures
        r@ == trim_class(s@, class),
{
    let mut i: usize = 0;
    assert(s@.skip(0) =~= s@);
    while i < s.len() && class.has(s[i])
        invariant
            i <= s.len(),
            trim_start(s@, class) == trim_start(s@.skip(i as int), class),
        decreases s.len() - i,
    {
        assert(s@.skip(i as int).drop_first() =~= s@.skip(i + 1));
        i = i + 1;
    }
    assert(trim_start(s@, class) == s@.skip(i as int)) by {
        let t = s@.skip(i as int);
        assert(t.len() > 0 ==> t[0] == s@[i as int]);
    }
    let mut j: usize = s.len();
    assert(s@.subrange(i as int, j as int) =~= s@.skip(i as int));
    while i < j && class.has(s[j - 1])
        invariant
            i <= j <= s.len(),
            trim_class(s@, class) == trim_end(s@.subrange(i as int, j as int), class),
        decreases j - i,
    {
        let ghost t = s@.subrange(i as int, j as int);
        assert(t.last() == s@[j - 1]);
        assert(t.drop_last() =~= s@.subrange(i as int, j - 1));
        j = j - 1;
    }
    let r = slice_subrange(s, i, j);
    assert(r@.len() > 0 ==> r@.last() == s@[j - 1]);
    r
}

/// Strips white space from both ends.
pub fn trimmed<'a>(s: &'a [char]) -> (r: &'a [char])
    ensures
        r@ == trim(s@),
{
    trimmed_class(s, CharClass::White)
}

/// Trims a string.
pub fn trim_string(s: &str) -> (r: String)
    ensures
        r@ == trim(s@),
{
    let cs = chars_of(s);
    string_of(trimmed(cs.as_slice()))
}

// ---------------------------------------------------------------------------
// Searching and comparing
// ---------------------------------------------------------------------------

/// The index of the first occurrence of a character, or the length.
pub open spec fn first_index(s: Seq<char>, c: char) -> int
    decreases s.len(),
{
    if s.len() == 0 || s[0] == c {
        0
    } else {
        1 + first_index(s.drop_first(), c)
    }
}

/// The index of the last occurrence of a character, or -1.
pub open spec fn last_index(s: Seq<char>, c: char) -> int
    decreases s.len(),
{
    if s.len() == 0 {
        -1
    } else if s.last() == c {
        s.len() - 1
    } else {
        last_index(s.drop_last(), c)
    }
}

/// What `first_index` means.
pub proof fn lemma_first_index(s: Seq<char>, c: char)
    ensures
        0 <= first_index(s, c) <= s.len(),
        first_index(s, c) < s.len() ==> s[first_index(s, c)] == c,
        forall|k: int| 0 <= k < first_index(s, c) ==> s[k] != c,
        s.contains(c) <==> first_index(s, c) < s.len(),
    decreases s.len(),
{
    if s.len() > 0 && s[0] != c {
        let t = s.drop_first();
        lemma_first_index(t, c);
        assert forall|k: int| 0 <= k < first_index(s, c) implies s[k] != c by {
            if k > 0 {
                assert(s[k] == t[k - 1]);
            }
        }
    }
    if s.contains(c) {
        let k = choose|k: int| 0 <= k < s.len() && s[k] == c;
        assert(s[k] == c);
    }
}

/// What `last_index` means.
pub proof fn lemma_last_index(s: Seq<char>, c: char)
    ensures
        -1 <= last_index(s, c) < s.len(),
        last_index(s, c) >= 0 ==> s[last_index(s, c)] == c,
        forall|k: int| last_index(s, c) < k < s.len() ==> s[k] != c,
    decreases s.len(),
{
    if s.len() > 0 && s.last() != c {
        let t = s.drop_last();
        lemma_last_index(t, c);
        assert forall|k: int| last_index(s, c) < k < s.len() implies s[k] != c by {
            if k < s.len() - 1 {
                assert(s[k] == t[k]);
            }
        }
    }
}

/// `first_index` is determined by its meaning.
pub proof fn lemma_first_index_unique(s: Seq<char>, c: char, i: int)
    requires
        0 <= i <= s.len(),
        i < s.len() ==> s[i] == c,
        forall|k: int| 0 <= k < i ==> s[k] != c,
    ensures
        first_index(s, c) == i,
{
    lemma_first_index(s, c);
}

/// The index of the first occurrence of a character, or the length.
pub fn find_char(s: &[char], c: char) -> (r: usize)
    ensures
        r == first_index(s@, c),
        r <= s.len(),
{
    let mut i: usize = 0;
    while i < s.len() && s[i] != c
        invariant
            i <= s.len(),
            forall|k: int| 0 <= k < i ==> s@[k] != c,
        decreases s.len() - i,
    {
        i = i + 1;
    }
    proof {
        lemma_first_index_unique(s@, c, i as int);
    }
    i
}

/// Whether a text holds a character.
pub fn has_char(s: &[char], c: char) -> (r: bool)
    ensures
        r == s@.contains(c),
{
    let i = find_char(s, c);
    proof {
        lemma_first_index(s@, c);
    }
    i < s.len()
}

/// The two parts of a text around the first occurrence of a character.
pub open spec fn split_at_first(s: Seq<char>, c: char) -> Option<(Seq<char>, Seq<char>)> {
    let i = first_index(s, c);
    if i < s.len() {
        Some((s.take(i), s.skip(i + 1)))
    } else {
        None
    }
}

/// The two parts of a text around the last occurrence of a character.
pub open spec fn split_at_last(s: Seq<char>, c: char) -> Option<(Seq<char>, Seq<char>)> {
    let i = last_index(s, c);
    if i >= 0 {
        Some((s.take(i), s.skip(i + 1)))
    } else {
        None
    }
}

/// Splits a text around the first occurrence of a character.
pub fn split_first<'a>(s: &'a [char], c: char) -> (r: Option<(&'a [char], &'a [char])>)
    ensures
        match r {
            Some((a, b)) => split_at_first(s@, c) == Some((a@, b@)),
            None => split_at_first(s@, c) is None,
        },
{
    let i = find_char(s, c);
    if i < s.len() {
        let a = slice_subrange(s, 0, i);
        let b = slice_subrange(s, i + 1, s.len());
        assert(a@ =~= s@.take(i as int));
        assert(b@ =~= s@.skip(i + 1));
        Some((a, b))
    } else {
        None
    }
}

/// Splits a text around the last occurrence of a character.
pub fn split_last<'a>(s: &'a [char], c: char) -> (r: Option<(&'a [char], &'a [char])>)
    ensures
        match r {
            Some((a, b)) => split_at_last(s@, c) == Some((a@, b@)),
            None => split_at_last(s@, c) is None,
        },
{
    let mut i: usize = s.len();
    while i > 0 && s[i - 1] != c
        invariant
            i <= s.len(),
            forall|k: int| i <= k < s.len() ==> s@[k] != c,
        decreases i,
    {
        i = i - 1;
    }
    proof {
        lemma_last_index(s@, c);
    }
    if i == 0 {
        None
    } else {
        let a = slice_subrange(s, 0, i - 1);
        let b = slice_subrange(s, i, s.len());
        assert(a@ =~= s@.take(i - 1));
        assert(b@ =~= s@.skip(i as int));
        Some((a, b))
    }
}

/// Whether two texts are equal.
pub fn same(a: &[char], b: &[char]) -> (r: bool)
    ensures
        r == (a@ == b@),
{
    if a.len() != b.len() {
        return false;
    }
    for i in 0..a.len()
        invariant
            a.len() == b.len(),
            forall|k: int| 0 <= k < i ==> a@[k] == b@[k],
    {
        if a[i] != b[i] {
            return false;
        }
    }
    assert(a@ =~= b@);
    true
}

/// Whether a text equals a string.
pub fn is_text(a: &[char], b: &str) -> (r: bool)
    ensures
        r == (a@ == b@),
{
    let cs = chars_of(b);
    same(a, cs.as_slice())
}

/// Whether a text begins with another.
pub open spec fn starts_with(s: Seq<char>, p: Seq<char>) -> bool {
    p.len() <= s.len() && s.take(p.len() as int) == p
}

/// Whether a text begins with a string.
pub fn begins(s: &[char], p: &str) -> (r: bool)
    ensures
        r == starts_with(s@, p@),
{
    let cs = chars_of(p);
    if cs.len() > s.len() {
        return false;
    }
    let head = slice_subrange(s, 0, cs.len());
    assert(head@ =~= s@.take(p@.len() as int));
    same(head, cs.as_slice())
}

/// The rest of a text after a prefix.
pub open spec fn strip_prefix(s: Seq<char>, p: Seq<char>) -> Option<Seq<char>> {
    if starts_with(s, p) {
        Some(s.skip(p.len() as int))
    } else {
        None
    }
}

/// Removes a prefix.
pub fn without_prefix<'a>(s: &'a [char], p: &str) -> (r: Option<&'a [char]>)
    ensures
        match r {
            Some(t) => strip_prefix(s@, p@) == Some(t@),
            None => strip_prefix(s@, p@) is None,
        },
{
    let cs = chars_of(p);
    if begins(s, p) {
        let t = slice_subrange(s, cs.len(), s.len());
        assert(t@ =~= s@.skip(p@.len() as int));
        Some(t)
    } else {
        None
    }
}

/// Whether a text holds another as a contiguous part.
pub open spec fn contains_text(s: Seq<char>, p: Seq<char>) -> bool {
    exists|i: int| 0 <= i <= s.len() - p.len() && #[trigger] s.subrange(i, i + p.len()) == p
}

/// Whether a text holds a string as a contiguous part.
pub fn holds_text(s: &[char], p: &str) -> (r: bool)
    ensures
        r == contains_text(s@, p@),
{
    let cs = chars_of(p);
    if cs.len() > s.len() {
        return false;
    }
    let last: usize = s.len() - cs.len();
    let mut i: usize = 0;
    while i <= last
        invariant
            cs@ == p@,
            cs.len() <= s.len(),
            last == s.len() - cs.len(),
            i <= last + 1,
            forall|k: int| 0 <= k < i ==> #[trigger] s@.subrange(k, k + p@.len()) != p@,
        decreases last + 1 - i,
    {
        if same(slice_subrange(s, i, i + cs.len()), cs.as_slice()) {
            assert(s@.subrange(i as int, i + p@.len()) == p@);
            return true;
        }
        if i == last {
            return false;
        }
        i = i + 1;
    }
    false
}

// ---------------------------------------------------------------------------
// Splitting into parts
// ---------------------------------------------------------------------------

/// A line without the carriage return that ended it.
pub open spec fn strip_cr(s: Seq<char>) -> Seq<char> {
    if s.len() > 0 && s.last() == '\r' {
        s.drop_last()
    } else {
        s
    }
}

/// The lines of a text. A line ends with a line feed, with or without a
/// carriage return in front of it; the last line may lack its line feed.
pub open spec fn lines(s: Seq<char>) -> Seq<Seq<char>>
    decreases s.len(),
{
    let i = first_index(s, '\n');
    if s.len() == 0 {
        Seq::empty()
    } else if i < 0 || i >= s.len() {
        seq![s]
    } else {
        seq![strip_cr(s.take(i))] + lines(s.skip(i + 1))
    }
}

/// The parts of a text between the occurrences of a character.
pub open spec fn split(s: Seq<char>, c: char) -> Seq<Seq<char>>
    decreases s.len(),
{
    let i = first_index(s, c);
    if i < 0 || i >= s.len() {
        seq![s]
    } else {
        seq![s.take(i)] + split(s.skip(i + 1), c)
    }
}

/// The length of the leading run of characters that are not white space.
pub open spec fn word_len(s: Seq<char>) -> int
    decreases s.len(),
{
    if s.len() == 0 || is_white(s[0]) {
        0
    } else {
        1 + word_len(s.drop_first())
    }
}

proof fn lemma_word_len(s: Seq<char>)
    ensures
        0 <= word_len(s) <= s.len(),
        word_len(s) < s.len() ==> is_white(s[word_len(s)]),
        forall|k: int| 0 <= k < word_len(s) ==> !is_white(s[k]),
    decreases s.len(),
{
    if s.len() > 0 && !is_white(s[0]) {
        let t = s.drop_first();
        lemma_word_len(t);
        assert forall|k: int| 0 <= k < word_len(s) implies !is_white(s[k]) by {
            if k > 0 {
                assert(s[k] == t[k - 1]);
            }
        }
    }
}

/// The words of a text: its maximal runs without white space.
pub open spec fn words(s: Seq<char>) -> Seq<Seq<char>>
    decreases s.len(),
{
    if s.len() == 0 {
        Seq::empty()
    } else if is_white(s[0]) {
        words(s.drop_first())
    } else {
        let n = word_len(s);
        if n <= 0 || n > s.len() {
            Seq::empty()
        } else {
            seq![s.take(n)] + words(s.skip(n))
        }
    }
}

/// The lines of a text.
pub fn lines_of(s: &[char]) -> (r: Vec<Vec<char>>)
    ensures
        texts(r@) == lines(s@),
{
    let mut r: Vec<Vec<char>> = Vec::new();
    let mut at: usize = 0;
    assert(s@.skip(0) =~= s@);
    while at < s.len()
        invariant
            at <= s.len(),
            lines(s@) == texts(r@) + lines(s@.skip(at as int)),
        decreases s.len() - at,
    {
        let rest = slice_subrange(s, at, s.len());
        assert(rest@ =~= s@.skip(at as int));
        let i = find_char(rest, '\n');
        let ghost before = texts(r@);
        if i >= rest.len() {
            let line = slice_to_vec(rest);
            r.push(line);
            assert(texts(r@) =~= before + seq![rest@]);
            at = s.len();
            assert(s@.skip(at as int) =~= Seq::<char>::empty());
            assert(lines(s@) =~= texts(r@) + lines(s@.skip(at as int)));
        } else {
            let mut end: usize = i;
            if i > 0 && rest[i - 1] == '\r' {
                end = i - 1;
            }
            let line = slice_to_vec(slice_subrange(rest, 0, end));
            assert(line@ =~= strip_cr(rest@.take(i as int)));
            r.push(line);
            assert(texts(r@) =~= before + seq![line@]);
            assert(rest@.skip(i + 1) =~= s@.skip(at + i + 1));
            at = at + i + 1;
            assert(before + (seq![line@] + lines(s@.skip(at as int))) =~= texts(r@) + lines(
                s@.skip(at as int),
            ));
        }
    }
    assert(s@.skip(at as int) =~= Seq::<char>::empty());
    assert(texts(r@) =~= lines(s@));
    r
}

/// The parts of a text between the occurrences of a character.
pub fn split_on(s: &[char], c: char) -> (r: Vec<Vec<char>>)
    ensures
        texts(r@) == split(s@, c),
{
    let mut r: Vec<Vec<char>> = Vec::new();
    let mut at: usize = 0;
    assert(s@.skip(0) =~= s@);
    assert(texts(r@) + split(s@.skip(0), c) =~= split(s@, c));
    loop
        invariant
            at <= s.len(),
            split(s@, c) == texts(r@) + split(s@.skip(at as int), c),
        decreases s.len() - at,
    {
        let rest = slice_subrange(s, at, s.len());
        assert(rest@ =~= s@.skip(at as int));
        let i = find_char(rest, c);
        let ghost before = texts(r@);
        if i >= rest.len() {
            let part = slice_to_vec(rest);
            r.push(part);
            assert(texts(r@) =~= before + seq![rest@]);
            return r;
        }
        let part = slice_to_vec(slice_subrange(rest, 0, i));
        assert(part@ =~= rest@.take(i as int));
        r.push(part);
        assert(texts(r@) =~= before + seq![part@]);
        assert(rest@.skip(i + 1) =~= s@.skip(at + i + 1));
        at = at + i + 1;
        assert(before + (seq![part@] + split(s@.skip(at as int), c)) =~= texts(r@) + split(
            s@.skip(at as int),
            c,
        ));
    }
}

/// The words of a text.
pub fn words_of(s: &[char]) -> (r: Vec<Vec<char>>)
    ensures
        texts(r@) == words(s@),
{
    let mut r: Vec<Vec<char>> = Vec::new();
    let mut at: usize = 0;
    assert(s@.skip(0) =~= s@);
    assert(texts(r@) + words(s@.skip(0)) =~= words(s@));
    while at < s.len()
        invariant
            at <= s.len(),
            words(s@) == texts(r@) + words(s@.skip(at as int)),
        decreases s.len() - at,
    {
        let ghost rest = s@.skip(at as int);
        assert(rest[0] == s@[at as int]);
        if white(s[at]) {
            assert(rest.drop_first() =~= s@.skip(at + 1));
            at = at + 1;
        } else {
            let start = at;
            let ghost before = texts(r@);
            while at < s.len() && !white(s[at])
                invariant
                    start <= at <= s.len(),
                    forall|k: int| start <= k < at ==> !is_white(s@[k]),
                decreases s.len() - at,
            {
                at = at + 1;
            }
            let word = slice_to_vec(slice_subrange(s, start, at));
            proof {
                lemma_word_len(rest);
                let n = word_len(rest);
                assert(at - start == n) by {
                    if n < at - start {
                        assert(rest[n] == s@[start + n]);
                    }
                    if n > at - start {
                        assert(rest[at - start] == s@[at as int]);
                    }
                }
                assert(word@ =~= rest.take(n));
                assert(rest.skip(n) =~= s@.skip(at as int));
                assert(n > 0);
            }
            r.push(word);
            assert(texts(r@) =~= before + seq![word@]);
            assert(before + (seq![word@] + words(s@.skip(at as int))) =~= texts(r@) + words(
                s@.skip(at as int),
            ));
        }
    }
    assert(s@.skip(at as int) =~= Seq::<char>::empty());
    assert(texts(r@) =~= words(s@));
    r
}

// ---------------------------------------------------------------------------
// Laws
// ---------------------------------------------------------------------------

proof fn lemma_trim_start_is(a: Seq<char>, s: Seq<char>, class: CharClass)
    requires
        forall|k: int| 0 <= k < a.len() ==> class.holds(#[trigger] a[k]),
        s.len() == 0 || !class.holds(s[0]),
    ensures
        trim_start(a + s, class) == s,
    decreases a.len(),
{
    if a.len() == 0 {
        assert(a + s =~= s);
    } else {
        let t = a.drop_first();
        assert((a + s)[0] == a[0]);
        assert((a + s).drop_first() =~= t + s);
        assert forall|k: int| 0 <= k < t.len() implies class.holds(#[trigger] t[k]) by {
            assert(t[k] == a[k + 1]);
        }
        lemma_trim_start_is(t, s, class);
    }
}

proof fn lemma_trim_end_all(s: Seq<char>, class: CharClass)
    requires
        forall|k: int| 0 <= k < s.len() ==> class.holds(#[trigger] s[k]),
    ensures
        trim_end(s, class).len() == 0,
    decreases s.len(),
{
    if s.len() > 0 {
        let t = s.drop_last();
        assert(class.holds(s[s.len() - 1]));
        assert forall|k: int| 0 <= k < t.len() implies class.holds(#[trigger] t[k]) by {
            assert(t[k] == s[k]);
        }
        lemma_trim_end_all(t, class);
    }
}

proof fn lemma_trim_start_all(s: Seq<char>, class: CharClass)
    requires
        forall|k: int| 0 <= k < s.len() ==> class.holds(#[trigger] s[k]),
    ensures
        trim_start(s, class).len() == 0,
    decreases s.len(),
{
    if s.len() > 0 {
        let t = s.drop_first();
        assert(class.holds(s[0]));
        assert forall|k: int| 0 <= k < t.len() implies class.holds(#[trigger] t[k]) by {
            assert(t[k] == s[k + 1]);
        }
        lemma_trim_start_all(t, class);
    }
}

/// Trimming takes off what is put around a text, and no more: around a text
/// whose ends are not of the class, any characters of the class go.
pub proof fn trimming_undoes_padding(
    a: Seq<char>,
    s: Seq<char>,
    b: Seq<char>,
    class: CharClass,
)
    requires
        forall|k: int| 0 <= k < a.len() ==> class.holds(#[trigger] a[k]),
        forall|k: int| 0 <= k < b.len() ==> class.holds(#[trigger] b[k]),
        s.len() == 0 || (!class.holds(s[0]) && !class.holds(s[s.len() - 1])),
    ensures
        trim_class(a + s + b, class) == s,
{
    let all = a + s + b;
    if s.len() == 0 {
        assert forall|k: int| 0 <= k < all.len() implies class.holds(#[trigger] all[k]) by {
            if k < a.len() {
                assert(all[k] == a[k]);
            } else {
                assert(all[k] == b[k - a.len()]);
            }
        }
        lemma_trim_start_all(all, class);
        lemma_trim_end_all(trim_start(all, class), class);
        assert(trim_class(all, class) =~= s);
    } else {
        assert(all =~= a + (s + b));
        assert((s + b)[0] == s[0]);
        lemma_trim_start_is(a, s + b, class);
        assert((s + b)[s.len() - 1] == s[s.len() - 1]);
        assert forall|k: int| s.len() <= k < (s + b).len() implies class.holds(
            #[trigger] (s + b)[k],
        ) by {
            assert((s + b)[k] == b[k - s.len()]);
        }
        lemma_trim_end_is(s + b, class, s.len() as int);
        assert((s + b).take(s.len() as int) =~= s);
    }
}

/// A text without white space at its ends is trimmed already.
pub proof fn a_trimmed_text_stays(s: Seq<char>)
    requires
        s.len() == 0 || (!is_white(s[0]) && !is_white(s[s.len() - 1])),
    ensures
        trim(s) == s,
{
    let none = Seq::<char>::empty();
    trimming_undoes_padding(none, s, none, CharClass::White);
    assert(none + s + none =~= s);
}

/// Whatever a text is, it is its trimmed form with characters of the class
/// around it, and the trimmed form has none of them at its ends.
pub proof fn trimming_only_cuts(s: Seq<char>, class: CharClass) -> (r: (Seq<char>, Seq<char>))
    ensures
        s == r.0 + trim_class(s, class) + r.1,
        forall|k: int| 0 <= k < r.0.len() ==> class.holds(#[trigger] r.0[k]),
        forall|k: int| 0 <= k < r.1.len() ==> class.holds(#[trigger] r.1[k]),
        trim_class(s, class).len() > 0 ==> !class.holds(trim_class(s, class)[0])
            && !class.holds(trim_class(s, class).last()),
{
    let start = lemma_trim_start_cuts(s, class);
    let mid = trim_start(s, class);
    let t = trim_end(mid, class);
    lemma_trim_end_cuts(mid, class);
    lemma_trim_end(mid, class);
    let end = mid.skip(t.len() as int);
    assert(mid =~= t + end);
    assert(s =~= start + t + end);
    assert forall|k: int| 0 <= k < end.len() implies class.holds(#[trigger] end[k]) by {
        assert(end[k] == mid[t.len() + k]);
    }
    if t.len() > 0 {
        assert(t[0] == mid[0]);
    }
    (start, end)
}

proof fn lemma_trim_start_cuts(s: Seq<char>, class: CharClass) -> (a: Seq<char>)
    ensures
        s == a + trim_start(s, class),
        forall|k: int| 0 <= k < a.len() ==> class.holds(#[trigger] a[k]),
        trim_start(s, class).len() > 0 ==> !class.holds(trim_start(s, class)[0]),
    decreases s.len(),
{
    if s.len() > 0 && class.holds(s[0]) {
        let rest = lemma_trim_start_cuts(s.drop_first(), class);
        let a = seq![s[0]] + rest;
        assert(s =~= a + trim_start(s, class)) by {
            assert(s =~= seq![s[0]] + s.drop_first());
        }
        assert forall|k: int| 0 <= k < a.len() implies class.holds(#[trigger] a[k]) by {
            if k > 0 {
                assert(a[k] == rest[k - 1]);
            }
        }
        a
    } else {
        assert(s =~= Seq::<char>::empty() + s);
        Seq::empty()
    }
}

/// The blank, the tab, the line feed and the carriage return are white; a
/// printing ASCII character is not.
pub proof fn ordinary_white_space(c: char)
    requires
        (c as int) < 128,
    ensures
        is_white(c) <==> c == ' ' || c == '\t' || c == '\n' || c == '\r' || c as int == 11 || c as int
            == 12,
        0x21 <= c as int ==> !is_white(c),
{
}

/// Cutting at the first occurrence of a character finds the two parts that
/// were put around it, and what cannot be cut has none.
pub proof fn cutting_at_the_first_undoes_joining(a: Seq<char>, c: char, b: Seq<char>)
    requires
        !a.contains(c),
    ensures
        split_at_first(a + seq![c] + b, c) == Some((a, b)),
        split_at_first(a, c) is None,
{
    let s = a + seq![c] + b;
    assert forall|k: int| 0 <= k < a.len() implies s[k] != c by {
        assert(s[k] == a[k]);
        assert(a.contains(a[k]));
    }
    lemma_first_index_unique(s, c, a.len() as int);
    assert(s.take(a.len() as int) =~= a);
    assert(s.skip(a.len() as int + 1) =~= b);
    lemma_first_index(a, c);
}

/// Cutting at the last occurrence of a character finds the two parts that were
/// put around it, and what cannot be cut has none.
pub proof fn cutting_at_the_last_undoes_joining(a: Seq<char>, c: char, b: Seq<char>)
    requires
        !b.contains(c),
    ensures
        split_at_last(a + seq![c] + b, c) == Some((a, b)),
        split_at_last(b, c) is None,
{
    let s = a + seq![c] + b;
    lemma_last_index(s, c);
    let i = last_index(s, c);
    assert(s[a.len() as int] == c);
    if i > a.len() {
        assert(s[i] == b[i - a.len() - 1]);
        assert(b.contains(b[i - a.len() - 1]));
    }
    assert(s.take(a.len() as int) =~= a);
    assert(s.skip(a.len() as int + 1) =~= b);
    lemma_last_index(b, c);
    if last_index(b, c) >= 0 {
        assert(b.contains(b[last_index(b, c)]));
    }
}

/// A text of some parts with a character between them.
pub open spec fn joined_by(parts: Seq<Seq<char>>, c: char) -> Seq<char>
    decreases parts.len(),
{
    if parts.len() == 0 {
        Seq::empty()
    } else if parts.len() == 1 {
        parts[0]
    } else {
        parts[0] + seq![c] + joined_by(parts.drop_first(), c)
    }
}

/// Splitting a text at a character gives parts that make the text again with
/// the character between them, and none of the parts holds it.
pub proof fn splitting_loses_nothing(s: Seq<char>, c: char)
    ensures
        split(s, c).len() > 0,
        joined_by(split(s, c), c) == s,
        forall|i: int| 0 <= i < split(s, c).len() ==> !(#[trigger] split(s, c)[i]).contains(c),
    decreases s.len(),
{
    let i = first_index(s, c);
    lemma_first_index(s, c);
    if i >= s.len() {
        assert(split(s, c) == seq![s]);
    } else {
        let head = s.take(i);
        let rest = s.skip(i + 1);
        splitting_loses_nothing(rest, c);
        let parts = split(s, c);
        assert(parts == seq![head] + split(rest, c));
        assert(parts.drop_first() =~= split(rest, c));
        assert(head + seq![c] + rest =~= s);
        assert(!head.contains(c)) by {
            if head.contains(c) {
                let k = choose|k: int| 0 <= k < head.len() && head[k] == c;
                assert(s[k] == c);
            }
        }
        assert forall|k: int| 0 <= k < parts.len() implies !(#[trigger] parts[k]).contains(c) by {
            if k > 0 {
                assert(parts[k] == split(rest, c)[k - 1]);
            }
        }
    }
}

/// Splitting undoes joining: parts that do not hold the character are found
/// again.
pub proof fn splitting_undoes_joining(parts: Seq<Seq<char>>, c: char)
    requires
        parts.len() > 0,
        forall|i: int| 0 <= i < parts.len() ==> !(#[trigger] parts[i]).contains(c),
    ensures
        split(joined_by(parts, c), c) == parts,
    decreases parts.len(),
{
    let s = joined_by(parts, c);
    if parts.len() == 1 {
        lemma_first_index(s, c);
        assert(!parts[0].contains(c));
        assert(split(s, c) =~= parts);
    } else {
        let tail = parts.drop_first();
        assert forall|i: int| 0 <= i < tail.len() implies !(#[trigger] tail[i]).contains(c) by {
            assert(tail[i] == parts[i + 1]);
        }
        splitting_undoes_joining(tail, c);
        assert(!parts[0].contains(c));
        cutting_at_the_first_undoes_joining(parts[0], c, joined_by(tail, c));
        let i = first_index(s, c);
        lemma_first_index(s, c);
        assert(split(s, c) =~= parts) by {
            assert(s.take(i) == parts[0]);
            assert(s.skip(i + 1) == joined_by(tail, c));
            assert(seq![parts[0]] + tail =~= parts);
        }
    }
}

/// A text of some lines, each with a line feed behind it.
pub open spec fn ended_lines(list: Seq<Seq<char>>) -> Seq<char>
    decreases list.len(),
{
    if list.len() == 0 {
        Seq::empty()
    } else {
        list[0] + seq!['\n'] + ended_lines(list.drop_first())
    }
}

/// Whether a text is one line, without a line end.
pub open spec fn is_line(s: Seq<char>) -> bool {
    !s.contains('\n') && (s.len() > 0 ==> s.last() != '\r')
}

/// The lines of a text are found again, in order, whatever they hold, with or
/// without a line feed behind the last one, and with or without carriage
/// returns.
pub proof fn lines_are_found_again(list: Seq<Seq<char>>, last: Seq<char>)
    requires
        forall|i: int| 0 <= i < list.len() ==> is_line(#[trigger] list[i]),
        is_line(last),
        last.len() > 0,
    ensures
        lines(ended_lines(list)) == list,
        lines(ended_lines(list) + last) == list.push(last),
    decreases list.len(),
{
    if list.len() == 0 {
        lemma_first_index(last, '\n');
        assert(ended_lines(list) + last =~= last);
        assert(lines(last) =~= seq![last]);
        assert(list.push(last) =~= seq![last]);
        assert(lines(Seq::<char>::empty()) =~= list);
    } else {
        let tail = list.drop_first();
        assert(is_line(list[0]));
        assert forall|i: int| 0 <= i < tail.len() implies is_line(#[trigger] tail[i]) by {
            assert(tail[i] == list[i + 1]);
        }
        lines_are_found_again(tail, last);
        a_line_is_cut_off(list[0], ended_lines(tail));
        a_line_is_cut_off(list[0], ended_lines(tail) + last);
        assert(seq![list[0]] + tail =~= list);
        assert(ended_lines(list) + last =~= list[0] + seq!['\n'] + (ended_lines(tail) + last));
        assert(seq![list[0]] + tail.push(last) =~= list.push(last));
    }
}

/// What stands before a line feed is a line, without the carriage return that
/// may end it, and the lines behind it follow.
pub proof fn a_line_is_cut_off(line: Seq<char>, rest: Seq<char>)
    requires
        is_line(line),
    ensures
        lines(line + seq!['\n'] + rest) == seq![line] + lines(rest),
        lines(line + seq!['\r', '\n'] + rest) == seq![line] + lines(rest),
{
    let s = line + seq!['\n'] + rest;
    cutting_at_the_first_undoes_joining(line, '\n', rest);
    lemma_first_index(s, '\n');
    assert(strip_cr(line) == line);
    assert(lines(s) == seq![line] + lines(rest));
    let with_cr = line.push('\r');
    let t = line + seq!['\r', '\n'] + rest;
    assert(t =~= with_cr + seq!['\n'] + rest);
    assert(!with_cr.contains('\n')) by {
        if with_cr.contains('\n') {
            let k = choose|k: int| 0 <= k < with_cr.len() && with_cr[k] == '\n';
            assert(line[k] == '\n');
        }
    }
    cutting_at_the_first_undoes_joining(with_cr, '\n', rest);
    lemma_first_index(t, '\n');
    assert(with_cr.drop_last() =~= line);
    assert(lines(t) == seq![strip_cr(with_cr)] + lines(rest));
}

/// Words are found again, in order, whatever white space stands before them:
/// a run of characters that are not white, up to white space or the end, is a
/// word.
pub proof fn a_word_is_cut_off(pad: Seq<char>, word: Seq<char>, rest: Seq<char>)
    requires
        forall|k: int| 0 <= k < pad.len() ==> is_white(#[trigger] pad[k]),
        word.len() > 0,
        forall|k: int| 0 <= k < word.len() ==> !is_white(#[trigger] word[k]),
        rest.len() == 0 || is_white(rest[0]),
    ensures
        words(pad + word + rest) == seq![word] + words(rest),
        words(pad) == Seq::<Seq<char>>::empty(),
    decreases pad.len(),
{
    let s = pad + word + rest;
    if pad.len() == 0 {
        lemma_word_len(s);
        let n = word_len(s);
        assert(s[0] == word[0]);
        if n < word.len() {
            assert(s[n] == word[n]);
        }
        if n > word.len() {
            assert(s[word.len() as int] == rest[0]);
        }
        assert(s.take(n) =~= word);
        assert(s.skip(n) =~= rest);
    } else {
        let t = pad.drop_first();
        assert(s[0] == pad[0]);
        assert(s.drop_first() =~= t + word + rest);
        assert forall|k: int| 0 <= k < t.len() implies is_white(#[trigger] t[k]) by {
            assert(t[k] == pad[k + 1]);
        }
        a_word_is_cut_off(t, word, rest);
        assert(is_white(pad[0]));
    }
}

/// Lowering keeps the length and every character but the capital ASCII
/// letters, which it moves by the distance between the cases; it leaves no
/// capital letter, so doing it again changes nothing.
pub proof fn lowering_moves_capitals_alone(s: Seq<char>, i: int)
    requires
        0 <= i < s.len(),
    ensures
        lower(s).len() == s.len(),
        65 <= s[i] as int <= 90 ==> lower(s)[i] as int == s[i] as int + 32,
        !(65 <= s[i] as int <= 90) ==> lower(s)[i] == s[i],
        lower(lower(s)) == lower(s),
{
    assert forall|k: int| 0 <= k < s.len() implies #[trigger] lower_char(lower_char(s[k]))
        == lower_char(s[k]) by {}
    assert(lower(lower(s)) =~= lower(s));
}

/// A text begins with what it was put together from, and what is left without
/// it is the rest; a text that begins with another one is that one and a rest.
pub proof fn a_text_begins_with_its_front(p: Seq<char>, b: Seq<char>, s: Seq<char>)
    ensures
        starts_with(p + b, p),
        strip_prefix(p + b, p) == Some(b),
        starts_with(s, p) <==> exists|rest: Seq<char>| s == #[trigger] (p + rest),
        strip_prefix(s, p) is Some <==> starts_with(s, p),
{
    assert((p + b).take(p.len() as int) =~= p);
    assert((p + b).skip(p.len() as int) =~= b);
    if starts_with(s, p) {
        assert(s =~= p + s.skip(p.len() as int));
    }
    if exists|rest: Seq<char>| s == #[trigger] (p + rest) {
        let rest = choose|rest: Seq<char>| s == #[trigger] (p + rest);
        assert((p + rest).take(p.len() as int) =~= p);
    }
}

/// A text holds another one if and only if it is that one with something, or
/// nothing, on either side.
pub proof fn a_text_holds_its_parts(a: Seq<char>, p: Seq<char>, b: Seq<char>, s: Seq<char>)
    ensures
        contains_text(a + p + b, p),
        contains_text(s, p) ==> exists|i: int|
            0 <= i <= s.len() - p.len() && #[trigger] s.take(i) + p + s.skip(i + p.len()) == s,
{
    let t = a + p + b;
    assert(t.subrange(a.len() as int, (a.len() + p.len()) as int) =~= p);
    if contains_text(s, p) {
        let i = choose|i: int|
            0 <= i <= s.len() - p.len() && #[trigger] s.subrange(i, i + p.len()) == p;
        assert(s.take(i) + p + s.skip(i + p.len()) =~= s);
    }
}

/// White space are the characters that Unicode calls so, and no others: six
/// ordinary ones, and the spaces and line ends behind them.
pub proof fn the_white_space_of_unicode(c: char)
    ensures
        is_white(c) <==> seq![
            9int, 10, 11, 12, 13, 32, 133, 160, 5760, 8192, 8193, 8194, 8195, 8196, 8197, 8198,
            8199, 8200, 8201, 8202, 8232, 8233, 8239, 8287, 12288,
        ].contains(c as int),
{
    let all = seq![
        9int, 10, 11, 12, 13, 32, 133, 160, 5760, 8192, 8193, 8194, 8195, 8196, 8197, 8198, 8199,
        8200, 8201, 8202, 8232, 8233, 8239, 8287, 12288,
    ];
    let n = c as int;
    assert forall|i: int| 0 <= i < all.len() implies is_white_number(#[trigger] all[i]) by {}
    if is_white(c) {
        assert(is_white_number(n));
        assert(all[0] == 9 && all[1] == 10 && all[2] == 11 && all[3] == 12 && all[4] == 13);
        assert(all[5] == 32 && all[6] == 133 && all[7] == 160 && all[8] == 5760);
        assert(all[9] == 8192 && all[10] == 8193 && all[11] == 8194 && all[12] == 8195);
        assert(all[13] == 8196 && all[14] == 8197 && all[15] == 8198 && all[16] == 8199);
        assert(all[17] == 8200 && all[18] == 8201 && all[19] == 8202 && all[20] == 8232);
        assert(all[21] == 8233 && all[22] == 8239 && all[23] == 8287 && all[24] == 12288);
        assert(all.contains(n));
    }
    if all.contains(n) {
        let i = choose|i: int| 0 <= i < all.len() && all[i] == n;
        assert(is_white_number(all[i]));
    }
}

spec fn is_white_number(n: int) -> bool {
    ||| 9 <= n <= 13
    ||| n == 32 || n == 133 || n == 160 || n == 5760
    ||| 8192 <= n <= 8202
    ||| n == 8232 || n == 8233 || n == 8239 || n == 8287 || n == 12288
}

} // verus!
