use vstd::prelude::*;

verus! {

/// Whether the standard library counts `c` among the alphabetic characters.
pub uninterp spec fn is_alphabetic(c: char) -> bool;

/// `char::is_alphabetic`: its answer depends on the character alone, so it is given the
/// name [`is_alphabetic`]. Nothing else is claimed of it.
pub assume_specification[ char::is_alphabetic ](c: char) -> (r: bool)
    ensures
        r == is_alphabetic(c),
;

/// `String::push` appends exactly the given character.
pub assume_specification[ String::push ](s: &mut String, c: char)
    ensures
        final(s)@ == old(s)@.push(c),
;

/// A decimal digit.
pub open spec fn is_digit(c: char) -> bool {
    '0' <= c <= '9'
}

/// A letter: among the first 128 characters the Latin letters, beyond them whatever the
/// standard library calls alphabetic.
pub open spec fn is_letter(c: char) -> bool {
    if (c as u32) < 128 {
        ('a' <= c <= 'z') || ('A' <= c <= 'Z')
    } else {
        is_alphabetic(c)
    }
}

/// A character that separates words: the code points that Unicode lists as White_Space.
pub open spec fn is_whitespace(c: char) -> bool {
    let n = c as u32;
    ||| 0x09 <= n <= 0x0D
    ||| n == 0x20
    ||| n == 0x85
    ||| n == 0xA0
    ||| n == 0x1680
    ||| 0x2000 <= n <= 0x200A
    ||| n == 0x2028
    ||| n == 0x2029
    ||| n == 0x202F
    ||| n == 0x205F
    ||| n == 0x3000
}

/// Whether `c` is a decimal digit.
pub fn digit(c: char) -> (r: bool)
    ensures
        r == is_digit(c),
{
    '0' <= c && c <= '9'
}

/// Whether `c` is a letter.
pub fn letter(c: char) -> (r: bool)
    ensures
        r == is_letter(c),
{
    if (c as u32) < 128 {
        ('a' <= c && c <= 'z') || ('A' <= c && c <= 'Z')
    } else {
        c.is_alphabetic()
    }
}

/// Whether `c` is whitespace.
pub fn whitespace(c: char) -> (r: bool)
    ensures
        r == is_whitespace(c),
{
    let n: u32 = c as u32;
    (0x09 <= n && n <= 0x0D) || n == 0x20 || n == 0x85 || n == 0xA0 || n == 0x1680 || (0x2000 <= n
        && n <= 0x200A) || n == 0x2028 || n == 0x2029 || n == 0x202F || n == 0x205F || n == 0x3000
}

/// The characters of a string, in order.
pub fn chars_of(s: &str) -> (v: Vec<char>)
    ensures
        v@ == s@,
{
    let mut v: Vec<char> = Vec::new();
    for c in it: s.chars()
        invariant
            v@ == it.seq().take(it.index() as int),
    {
        v.push(c);
    }
    v
}

/// The string made of the given characters.
pub fn string_of(v: &Vec<char>) -> (s: String)
    ensures
        s@ == v@,
{
    let mut s = String::new();
    let mut i: usize = 0;
    while i < v.len()
        invariant
            i <= v.len(),
            s@ == v@.take(i as int),
        decreases v.len() - i,
    {
        s.push(v[i]);
        i += 1;
    }
    s
}

/// A copy of the given characters.
pub(crate) fn copy_of(v: &Vec<char>) -> (r: Vec<char>)
    ensures
        r@ == v@,
{
    let mut r: Vec<char> = Vec::new();
    let mut i: usize = 0;
    while i < v.len()
        invariant
            i <= v.len(),
            r@ == v@.take(i as int),
        decreases v.len() - i,
    {
        r.push(v[i]);
        i += 1;
    }
    r
}

/// The test that keeps every character but whitespace.
pub open spec fn visible() -> spec_fn(char) -> bool {
    |c: char| !is_whitespace(c)
}

/// The text with every whitespace character taken out.
pub open spec fn without_whitespace(s: Seq<char>) -> Seq<char> {
    s.filter(visible())
}

/// Reads a string and drops its whitespace.
pub(crate) fn strip(s: &str) -> (v: Vec<char>)
    ensures
        v@ == without_whitespace(s@),
{
    let mut v: Vec<char> = Vec::new();
    for c in it: s.chars()
        invariant
            it.seq() == s@,
            v@ == s@.take(it.index() as int).filter(visible()),
    {
        proof {
            s@.lemma_take_succ_push(it.index() as int);
            s@.take(it.index() as int).lemma_filter_push(c, visible());
        }
        if !whitespace(c) {
            v.push(c);
        }
    }
    proof {
        s@.lemma_take_len();
    }
    v
}

/// Two separators side by side: the mark of operators that met without an operand between.
pub open spec fn has_double_space(s: Seq<char>) -> bool {
    exists|i: int| 0 <= i && i + 1 < s.len() && s[i] == ' ' && #[trigger] s[i + 1] == ' '
}

/// Looks for two separators side by side.
pub(crate) fn double_space(v: &Vec<char>) -> (r: bool)
    ensures
        r == has_double_space(v@),
{
    let mut i: usize = 1;
    while i < v.len()
        invariant
            1 <= i,
            forall|j: int| 0 <= j && j + 1 < i ==> !(v@[j] == ' ' && #[trigger] v@[j + 1] == ' '),
        decreases v.len() - i,
    {
        if v[i - 1] == ' ' && v[i] == ' ' {
            assert(v@[(i - 1) + 1] == ' ');
            return true;
        }
        i += 1;
    }
    false
}

/// Whether `c` occurs in the text.
pub(crate) fn contains_char(v: &Vec<char>, c: char) -> (r: bool)
    ensures
        r == v@.contains(c),
{
    let mut i: usize = 0;
    while i < v.len()
        invariant
            i <= v.len(),
            forall|j: int| 0 <= j < i ==> v@[j] != c,
        decreases v.len() - i,
    {
        if v[i] == c {
            return true;
        }
        i += 1;
    }
    false
}

/// The words of a text that is read from `s` on, where `word` holds the characters of the
/// word that was begun before `s`.
pub open spec fn words_after(s: Seq<char>, word: Seq<char>) -> Seq<Seq<char>>
    decreases s.len(),
{
    let done = if word.len() > 0 {
        seq![word]
    } else {
        Seq::empty()
    };
    if s.len() == 0 {
        done
    } else if is_whitespace(s[0]) {
        done + words_after(s.drop_first(), Seq::empty())
    } else {
        words_after(s.drop_first(), word.push(s[0]))
    }
}

/// The words of a text: its longest runs of characters other than whitespace, in order.
pub open spec fn words(s: Seq<char>) -> Seq<Seq<char>> {
    words_after(s, Seq::empty())
}

/// The texts that a list of character vectors holds.
pub open spec fn texts(v: Seq<Vec<char>>) -> Seq<Seq<char>> {
    Seq::new(v.len(), |i: int| v[i]@)
}

/// Splits a string into its words.
pub(crate) fn split(s: &str) -> (v: Vec<Vec<char>>)
    ensures
        texts(v@) == words(s@),
{
    let mut v: Vec<Vec<char>> = Vec::new();
    let mut word: Vec<char> = Vec::new();
    assert(s@.skip(0) == s@);
    assert(texts(v@) + words(s@) =~= words(s@));
    for c in it: s.chars()
        invariant
            it.seq() == s@,
            texts(v@) + words_after(s@.skip(it.index() as int), word@) == words(s@),
    {
        let ghost rest = s@.skip(it.index() as int);
        let ghost before = texts(v@);
        let ghost begun = word@;
        assert(rest.drop_first() == s@.skip(it.index() + 1));
        assert(rest[0] == c);
        if whitespace(c) {
            if word.len() > 0 {
                v.push(word);
                word = Vec::new();
                assert(texts(v@) =~= before + seq![begun]);
            }
            assert(word@ =~= Seq::empty());
            assert(texts(v@) + words_after(rest.drop_first(), Seq::empty()) =~= before
                + words_after(rest, begun));
        } else {
            word.push(c);
            assert(words_after(rest, begun) == words_after(rest.drop_first(), begun.push(c)));
        }
    }
    if word.len() > 0 {
        let ghost before = texts(v@);
        let ghost begun = word@;
        v.push(word);
        assert(texts(v@) =~= before + seq![begun]);
    }
    v
}

/// Where `c` first stands in the text; the length of the text if it is not in it.
pub open spec fn index_of(s: Seq<char>, c: char) -> nat
    decreases s.len(),
{
    if s.len() == 0 || s[0] == c {
        0
    } else {
        1 + index_of(s.drop_first(), c)
    }
}

/// The letters that close the text, read from the end backwards.
pub open spec fn letters_from_end(s: Seq<char>) -> Seq<char>
    decreases s.len(),
{
    if s.len() > 0 && is_letter(s.last()) {
        seq![s.last()] + letters_from_end(s.drop_last())
    } else {
        Seq::empty()
    }
}

/// Finds `c` in the part of the text between `from` and `to`.
pub(crate) fn find(v: &Vec<char>, from: usize, to: usize, c: char) -> (at: usize)
    requires
        from <= to <= v.len(),
    ensures
        at == from + index_of(v@.subrange(from as int, to as int), c),
        from <= at <= to,
{
    let mut i: usize = from;
    while i < to && v[i] != c
        invariant
            from <= i <= to <= v.len(),
            index_of(v@.subrange(from as int, to as int), c) == (i - from) + index_of(
                v@.subrange(i as int, to as int),
                c,
            ),
        decreases to - i,
    {
        assert(v@.subrange(i as int, to as int).drop_first() == v@.subrange(i + 1, to as int));
        i += 1;
    }
    i
}

/// The part of the text between `from` and `to`.
pub(crate) fn slice_of(v: &Vec<char>, from: usize, to: usize) -> (r: Vec<char>)
    requires
        from <= to <= v.len(),
    ensures
        r@ == v@.subrange(from as int, to as int),
{
    let mut r: Vec<char> = Vec::new();
    let mut i: usize = from;
    while i < to
        invariant
            from <= i <= to <= v.len(),
            r@ == v@.subrange(from as int, i as int),
        decreases to - i,
    {
        r.push(v[i]);
        i += 1;
    }
    r
}

/// Collects the letters that close the text, last letter first.
pub(crate) fn closing_letters(v: &Vec<char>) -> (r: Vec<char>)
    ensures
        r@ == letters_from_end(v@),
{
    let mut r: Vec<char> = Vec::new();
    let mut n: usize = v.len();
    assert(v@.take(n as int) == v@);
    assert(r@ + letters_from_end(v@) =~= letters_from_end(v@));
    while n > 0 && letter(v[n - 1])
        invariant
            n <= v.len(),
            r@ + letters_from_end(v@.take(n as int)) == letters_from_end(v@),
        decreases n,
    {
        assert(v@.take(n as int).drop_last() == v@.take(n - 1));
        r.push(v[n - 1]);
        n -= 1;
    }
    r
}

/// Appends a text to another.
pub(crate) fn append(out: &mut Vec<char>, part: &Vec<char>)
    ensures
        final(out)@ == old(out)@ + part@,
{
    let mut i: usize = 0;
    while i < part.len()
        invariant
            i <= part.len(),
            out@ == old(out)@ + part@.take(i as int),
        decreases part.len() - i,
    {
        out.push(part[i]);
        i += 1;
    }
}

} // verus!
