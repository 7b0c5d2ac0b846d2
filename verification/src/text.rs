//! Text: numerals, lists of words, white space and quoting.

use vstd::prelude::*;
use vstd::string::*;

verus! {

/// `String::push` of the standard library: the character is appended to the string.
pub assume_specification[ String::push ](s: &mut String, c: char)
    ensures
        final(s)@ == old(s)@.push(c),
;

/// What `String::from_utf8_lossy` makes of a sequence of bytes.
pub uninterp spec fn lossy_utf8(bytes: Seq<u8>) -> Seq<char>;

/// `String::from_utf8_lossy` of the standard library: a function of the bytes alone, which decodes
/// valid UTF-8. What it puts in the place of invalid bytes is left to the name.
#[verifier::external_body]
pub(crate) fn from_utf8_lossy(bytes: &[u8]) -> (out: String)
    ensures
        out@ == lossy_utf8(bytes@),
        vstd::utf8::valid_utf8(bytes@) ==> out@ == vstd::utf8::decode_utf8(bytes@),
{
    String::from_utf8_lossy(bytes).into_owned()
}

/// The texts of a list of strings.
pub open spec fn texts(list: Seq<String>) -> Seq<Seq<char>> {
    list.map_values(|s: String| s@)
}

/// The digit of value `d`, in lower case from ten on.
pub open spec fn digit(d: nat) -> char {
    if d < 10 {
        (48 + d) as char
    } else {
        (87 + d) as char
    }
}

/// The decimal numeral of `n`, without leading zeros.
pub open spec fn decimal(n: nat) -> Seq<char>
    decreases n,
{
    if n < 10 {
        seq![digit(n)]
    } else {
        decimal(n / 10).push(digit(n % 10))
    }
}

/// The hexadecimal numeral of `n`, in lower case and without leading zeros.
pub open spec fn hexadecimal(n: nat) -> Seq<char>
    decreases n,
{
    if n < 16 {
        seq![digit(n)]
    } else {
        hexadecimal(n / 16).push(digit(n % 16))
    }
}

fn digit_char(d: u8) -> (c: char)
    requires
        d < 16,
    ensures
        c == digit(d as nat),
{
    if d < 10 {
        (48 + d) as char
    } else {
        (87 + d) as char
    }
}

/// Appends the decimal numeral of `n`.
pub fn push_decimal(out: &mut String, n: u128)
    ensures
        final(out)@ == old(out)@ + decimal(n as nat),
    decreases n,
{
    if n >= 10 {
        push_decimal(out, n / 10);
    }
    out.push(digit_char((n % 10) as u8));
}

/// Appends the hexadecimal numeral of `n`.
pub fn push_hexadecimal(out: &mut String, n: u16)
    ensures
        final(out)@ == old(out)@ + hexadecimal(n as nat),
    decreases n,
{
    if n >= 16 {
        push_hexadecimal(out, n / 16);
    }
    out.push(digit_char((n % 16) as u8));
}

/// The items of `list`, with `separator` between every two neighbours.
pub open spec fn joined(list: Seq<Seq<char>>, separator: Seq<char>) -> Seq<char>
    decreases list.len(),
{
    if list.len() == 0 {
        Seq::empty()
    } else if list.len() == 1 {
        list[0]
    } else {
        joined(list.drop_last(), separator) + separator + list.last()
    }
}

/// The strings of `list`, with one space between every two neighbours.
pub fn join_words(list: &Vec<String>) -> (out: String)
    ensures
        out@ == joined(texts(list@), seq![' ']),
{
    let mut out = String::new();
    let mut i: usize = 0;
    while i < list.len()
        invariant
            i <= list.len(),
            out@ == joined(texts(list@).take(i as int), seq![' ']),
        decreases list.len() - i,
    {
        if i > 0 {
            out.push(' ');
        }
        out.append(list[i].as_str());
        proof {
            let now = texts(list@).take(i + 1);
            assert(now.drop_last() =~= texts(list@).take(i as int));
            assert(now.last() == list@[i as int]@);
            assert(texts(list@).take(0) =~= Seq::<Seq<char>>::empty());
            if i > 0 {
                let before = joined(texts(list@).take(i as int), seq![' ']);
                assert(before.push(' ') =~= before + seq![' ']);
            } else {
                assert(Seq::<char>::empty() + list@[0]@ =~= list@[0]@);
            }
        }
        i = i + 1;
    }
    assert(texts(list@).take(list.len() as int) =~= texts(list@));
    out
}

/// The characters with the Unicode property White_Space.
pub open spec fn is_white(c: char) -> bool {
    ||| '\u{9}' <= c <= '\u{d}'
    ||| c == '\u{20}'
    ||| c == '\u{85}'
    ||| c == '\u{a0}'
    ||| c == '\u{1680}'
    ||| '\u{2000}' <= c <= '\u{200a}'
    ||| c == '\u{2028}'
    ||| c == '\u{2029}'
    ||| c == '\u{202f}'
    ||| c == '\u{205f}'
    ||| c == '\u{3000}'
}

/// Whether `c` is white space.
pub fn is_white_space(c: char) -> (white: bool)
    ensures
        white == is_white(c),
{
    ('\u{9}' <= c && c <= '\u{d}') || c == '\u{20}' || c == '\u{85}' || c == '\u{a0}'
        || c == '\u{1680}' || ('\u{2000}' <= c && c <= '\u{200a}') || c == '\u{2028}'
        || c == '\u{2029}' || c == '\u{202f}' || c == '\u{205f}' || c == '\u{3000}'
}

/// The length of the longest prefix of `s` without white space.
pub open spec fn word_len(s: Seq<char>) -> nat
    decreases s.len(),
{
    if s.len() == 0 || is_white(s[0]) {
        0
    } else {
        1 + word_len(s.drop_first())
    }
}

/// The words of `s`: its maximal runs of characters that are not white space, in order.
pub open spec fn words(s: Seq<char>) -> Seq<Seq<char>>
    decreases s.len(),
{
    if s.len() == 0 {
        Seq::empty()
    } else if is_white(s[0]) {
        words(s.drop_first())
    } else {
        let n = word_len(s);
        if 0 < n <= s.len() {
            seq![s.take(n as int)] + words(s.skip(n as int))
        } else {
            Seq::empty()
        }
    }
}

/// A word is not longer than the text it begins, and it ends where the text does or before white
/// space.
proof fn lemma_word_len(s: Seq<char>)
    ensures
        word_len(s) <= s.len(),
        forall|i: int| 0 <= i < word_len(s) ==> !is_white(#[trigger] s[i]),
        word_len(s) < s.len() ==> is_white(s[word_len(s) as int]),
        s.len() > 0 && !is_white(s[0]) ==> word_len(s) > 0,
    decreases s.len(),
{
    if s.len() > 0 && !is_white(s[0]) {
        let rest = s.drop_first();
        lemma_word_len(rest);
        assert forall|i: int| 0 <= i < word_len(s) implies !is_white(#[trigger] s[i]) by {
            if i > 0 {
                assert(s[i] == rest[i - 1]);
            }
        }
    }
}

/// A prefix without white space that ends where the text does or before white space is the word
/// that the text begins with.
proof fn lemma_word_len_is(s: Seq<char>, n: nat)
    requires
        n <= s.len(),
        forall|i: int| 0 <= i < n ==> !is_white(#[trigger] s[i]),
        n < s.len() ==> is_white(s[n as int]),
    ensures
        word_len(s) == n,
    decreases n,
{
    if n > 0 {
        let rest = s.drop_first();
        assert(!is_white(s[0]));
        assert forall|i: int| 0 <= i < n - 1 implies !is_white(#[trigger] rest[i]) by {
            assert(rest[i] == s[i + 1]);
        }
        lemma_word_len_is(rest, (n - 1) as nat);
    }
}

/// The characters of a string.
pub fn characters(s: &str) -> (out: Vec<char>)
    ensures
        out@ == s@,
{
    let mut out: Vec<char> = Vec::new();
    for c in iter: s.chars()
        invariant
            iter.seq() == s@,
            out@ == s@.take(iter.index() as int),
    {
        out.push(c);
        assert(s@.take(iter.index() + 1) =~= s@.take(iter.index() as int).push(c));
    }
    assert(s@.take(s@.len() as int) =~= s@);
    out
}

/// The string of the characters `from..to`.
pub fn substring(chars: &Vec<char>, from: usize, to: usize) -> (out: String)
    requires
        from <= to <= chars.len(),
    ensures
        out@ == chars@.subrange(from as int, to as int),
{
    let mut out = String::new();
    let mut i: usize = from;
    while i < to
        invariant
            from <= i <= to <= chars.len(),
            out@ == chars@.subrange(from as int, i as int),
        decreases to - i,
    {
        out.push(chars[i]);
        assert(chars@.subrange(from as int, i + 1) =~= chars@.subrange(from as int, i as int).push(
            chars@[i as int],
        ));
        i = i + 1;
    }
    out
}

/// The words of a text.
pub fn split_words(s: &str) -> (out: Vec<String>)
    ensures
        texts(out@) == words(s@),
{
    let chars = characters(s);
    let mut out: Vec<String> = Vec::new();
    let mut i: usize = 0;
    assert(s@.skip(0) =~= s@);
    assert(texts(out@) + words(s@) =~= words(s@));
    while i < chars.len()
        invariant
            chars@ == s@,
            i <= chars.len(),
            texts(out@) + words(s@.skip(i as int)) == words(s@),
        decreases chars.len() - i,
    {
        let ghost rest = s@.skip(i as int);
        if is_white_space(chars[i]) {
            assert(rest.drop_first() =~= s@.skip(i + 1));
            i = i + 1;
        } else {
            let start: usize = i;
            while i < chars.len() && !is_white_space(chars[i])
                invariant
                    chars@ == s@,
                    start <= i <= chars.len(),
                    forall|j: int| start <= j < i ==> !is_white(#[trigger] s@[j]),
                decreases chars.len() - i,
            {
                i = i + 1;
            }
            let word = substring(&chars, start, i);
            let ghost before = texts(out@);
            out.push(word);
            proof {
                lemma_word_len_is(rest, (i - start) as nat);
                assert(rest.skip(i - start) =~= s@.skip(i as int));
                assert(rest.take(i - start) =~= s@.subrange(start as int, i as int));
                assert(!is_white(s@[start as int]));
                assert(texts(out@) =~= before.push(word@));
                assert(before.push(word@) + words(s@.skip(i as int)) =~= before + (seq![word@]
                    + words(s@.skip(i as int))));
            }
        }
    }
    assert(s@.skip(chars.len() as int) =~= Seq::<char>::empty());
    assert(texts(out@) + Seq::<Seq<char>>::empty() =~= texts(out@));
    out
}

/// `s` without the white space it begins with.
pub open spec fn trimmed_start(s: Seq<char>) -> Seq<char>
    decreases s.len(),
{
    if s.len() > 0 && is_white(s[0]) {
        trimmed_start(s.drop_first())
    } else {
        s
    }
}

/// `s` without the white space it ends with.
pub open spec fn trimmed_end(s: Seq<char>) -> Seq<char>
    decreases s.len(),
{
    if s.len() > 0 && is_white(s.last()) {
        trimmed_end(s.drop_last())
    } else {
        s
    }
}

/// `s` without the white space it begins and ends with.
pub open spec fn trimmed(s: Seq<char>) -> Seq<char> {
    trimmed_end(trimmed_start(s))
}

/// A text without the white space it begins and ends with.
pub fn trim(s: &str) -> (out: String)
    ensures
        out@ == trimmed(s@),
{
    let chars = characters(s);
    let mut from: usize = 0;
    assert(s@.skip(0) =~= s@);
    while from < chars.len() && is_white_space(chars[from])
        invariant
            chars@ == s@,
            from <= chars.len(),
            trimmed_start(s@.skip(from as int)) == trimmed_start(s@),
        decreases chars.len() - from,
    {
        assert(s@.skip(from as int).drop_first() =~= s@.skip(from + 1));
        from = from + 1;
    }
    let mut to: usize = chars.len();
    assert(s@.subrange(from as int, to as int) =~= s@.skip(from as int));
    while to > from && is_white_space(chars[to - 1])
        invariant
            chars@ == s@,
            from <= to <= chars.len(),
            trimmed_end(s@.subrange(from as int, to as int)) == trimmed(s@),
        decreases to,
    {
        assert(s@.subrange(from as int, to as int).drop_last() =~= s@.subrange(
            from as int,
            to - 1,
        ));
        to = to - 1;
    }
    substring(&chars, from, to)
}

/// `s` with every single quote doubled.
pub open spec fn doubled_quotes(s: Seq<char>) -> Seq<char>
    decreases s.len(),
{
    if s.len() == 0 {
        Seq::empty()
    } else {
        (if s[0] == '\'' {
            seq!['\'', '\'']
        } else {
            seq![s[0]]
        }) + doubled_quotes(s.drop_first())
    }
}

/// A text with every single quote doubled, as it stands inside a single-quoted literal.
pub fn double_quotes(s: &str) -> (out: String)
    ensures
        out@ == doubled_quotes(s@),
{
    let chars = characters(s);
    let mut out = String::new();
    let mut i: usize = 0;
    assert(s@.skip(0) =~= s@);
    assert(out@ + doubled_quotes(s@) =~= doubled_quotes(s@));
    while i < chars.len()
        invariant
            chars@ == s@,
            i <= chars.len(),
            out@ + doubled_quotes(s@.skip(i as int)) == doubled_quotes(s@),
        decreases chars.len() - i,
    {
        let ghost before = out@;
        let c = chars[i];
        out.push(c);
        if c == '\'' {
            out.push('\'');
        }
        proof {
            let rest = s@.skip(i as int);
            assert(rest.drop_first() =~= s@.skip(i + 1));
            assert(out@ + doubled_quotes(s@.skip(i + 1)) =~= before + doubled_quotes(rest));
        }
        i = i + 1;
    }
    assert(s@.skip(chars.len() as int) =~= Seq::<char>::empty());
    assert(out@ + Seq::<char>::empty() =~= out@);
    out
}

/// What a single-quoted literal with the body `t` stands for: two quotes in a row stand for one,
/// and a lone quote would end the literal, so that `t` is then no body.
pub open spec fn literal_value(t: Seq<char>) -> Option<Seq<char>>
    decreases t.len(),
{
    if t.len() == 0 {
        Some(Seq::empty())
    } else if t[0] != '\'' {
        match literal_value(t.drop_first()) {
            Some(rest) => Some(seq![t[0]] + rest),
            None => None,
        }
    } else if t.len() > 1 && t[1] == '\'' {
        match literal_value(t.skip(2)) {
            Some(rest) => Some(seq!['\''] + rest),
            None => None,
        }
    } else {
        None
    }
}

/// A text with its quotes doubled is the body of a single-quoted literal that stands for the text
/// itself: no text can end the literal early.
pub proof fn law_doubled_quotes_are_a_literal(s: Seq<char>)
    ensures
        literal_value(doubled_quotes(s)) == Some(s),
    decreases s.len(),
{
    if s.len() > 0 {
        let rest = s.drop_first();
        law_doubled_quotes_are_a_literal(rest);
        let t = doubled_quotes(s);
        if s[0] == '\'' {
            assert(t.skip(2) =~= doubled_quotes(rest));
        } else {
            assert(t.drop_first() =~= doubled_quotes(rest));
        }
        assert(seq![s[0]] + rest =~= s);
    }
}

/// A word: at least one character, and no white space.
pub open spec fn is_word(w: Seq<char>) -> bool {
    w.len() > 0 && forall|i: int| 0 <= i < w.len() ==> !is_white(#[trigger] w[i])
}

/// Every word of a text is non-empty and holds no white space.
pub proof fn law_words_hold_no_white_space(s: Seq<char>)
    ensures
        forall|i: int| 0 <= i < words(s).len() ==> is_word(#[trigger] words(s)[i]),
    decreases s.len(),
{
    if s.len() > 0 {
        if is_white(s[0]) {
            law_words_hold_no_white_space(s.drop_first());
            assert(words(s) == words(s.drop_first()));
        } else {
            lemma_word_len(s);
            let n = word_len(s) as int;
            law_words_hold_no_white_space(s.skip(n));
            assert forall|i: int| 0 <= i < words(s).len() implies is_word(
                #[trigger] words(s)[i],
            ) by {
                if i == 0 {
                    assert(words(s)[0] == s.take(n));
                } else {
                    assert(words(s)[i] == words(s.skip(n))[i - 1]);
                }
            }
        }
    }
}

/// Words written with one space between every two neighbours are the words of the text so written.
pub proof fn law_words_of_joined(list: Seq<Seq<char>>)
    requires
        forall|i: int| 0 <= i < list.len() ==> is_word(#[trigger] list[i]),
    ensures
        words(joined(list, seq![' '])) == list,
    decreases list.len(),
{
    if list.len() == 1 {
        assert(is_word(list[0]));
        lemma_words_of_word(list[0]);
        assert(list =~= seq![list[0]]);
    } else if list.len() > 1 {
        assert(is_word(list[list.len() - 1]));
        assert forall|i: int| 0 <= i < list.drop_last().len() implies is_word(
            #[trigger] list.drop_last()[i],
        ) by {
            assert(is_word(list[i]));
        }
        law_words_of_joined(list.drop_last());
        lemma_words_append(joined(list.drop_last(), seq![' ']), list.last());
        assert(list =~= list.drop_last().push(list.last()));
    }
}

/// White space at the end of a text changes none of its words.
pub proof fn law_white_space_ends_no_word(s: Seq<char>, c: char)
    requires
        is_white(c),
    ensures
        words(s.push(c)) == words(s),
    decreases s.len(),
{
    let t = s.push(c);
    if s.len() == 0 {
        reveal_with_fuel(words, 2);
        assert(t.drop_first() =~= s);
    } else if is_white(s[0]) {
        law_white_space_ends_no_word(s.drop_first(), c);
        assert(t.drop_first() =~= s.drop_first().push(c));
    } else {
        lemma_word_len(s);
        let n = word_len(s);
        assert forall|i: int| 0 <= i < n implies !is_white(#[trigger] t[i]) by {
            assert(t[i] == s[i]);
        }
        lemma_word_len_is(t, n);
        law_white_space_ends_no_word(s.skip(n as int), c);
        assert(t.skip(n as int) =~= s.skip(n as int).push(c));
        assert(t.take(n as int) =~= s.take(n as int));
    }
}

proof fn lemma_words_of_word(w: Seq<char>)
    requires
        is_word(w),
    ensures
        words(w) == seq![w],
{
    reveal_with_fuel(words, 2);
    assert(!is_white(w[0]));
    lemma_word_len_is(w, w.len());
    assert(w.take(w.len() as int) =~= w);
    assert(w.skip(w.len() as int) =~= Seq::<char>::empty());
    assert(words(w) =~= seq![w]);
}

proof fn lemma_words_append(s: Seq<char>, w: Seq<char>)
    requires
        is_word(w),
    ensures
        words(s + seq![' '] + w) == words(s).push(w),
    decreases s.len(),
{
    let t = s + seq![' '] + w;
    if s.len() == 0 {
        assert(t.drop_first() =~= w);
        lemma_words_of_word(w);
        assert(words(s).push(w) =~= seq![w]);
    } else if is_white(s[0]) {
        lemma_words_append(s.drop_first(), w);
        assert(t.drop_first() =~= s.drop_first() + seq![' '] + w);
    } else {
        lemma_word_len(s);
        let n = word_len(s);
        assert forall|i: int| 0 <= i < n implies !is_white(#[trigger] t[i]) by {
            assert(t[i] == s[i]);
        }
        lemma_word_len_is(t, n);
        lemma_words_append(s.skip(n as int), w);
        assert(t.skip(n as int) =~= s.skip(n as int) + seq![' '] + w);
        assert(t.take(n as int) =~= s.take(n as int));
        assert(seq![s.take(n as int)] + words(s.skip(n as int)).push(w) =~= words(s).push(w));
    }
}

/// Trimmed text neither begins nor ends with white space.
pub proof fn law_trimmed_has_no_outer_white_space(s: Seq<char>)
    ensures
        trimmed(s).len() > 0 ==> !is_white(trimmed(s)[0]) && !is_white(trimmed(s).last()),
{
    lemma_trimmed_start(s);
    lemma_trimmed_end(trimmed_start(s));
}

proof fn lemma_trimmed_start(s: Seq<char>)
    ensures
        trimmed_start(s).len() > 0 ==> !is_white(trimmed_start(s)[0]),
    decreases s.len(),
{
    if s.len() > 0 && is_white(s[0]) {
        lemma_trimmed_start(s.drop_first());
    }
}

proof fn lemma_trimmed_end(s: Seq<char>)
    ensures
        trimmed_end(s).len() > 0 ==> !is_white(trimmed_end(s).last()) && trimmed_end(s)[0] == s[0],
    decreases s.len(),
{
    if s.len() > 0 && is_white(s.last()) {
        lemma_trimmed_end(s.drop_last());
    }
}

/// The number that a text of decimal digits stands for.
pub open spec fn decimal_value(s: Seq<char>) -> nat
    decreases s.len(),
{
    if s.len() == 0 {
        0
    } else {
        (decimal_value(s.drop_last()) * 10 + (s.last() as int - '0' as int)) as nat
    }
}

/// The number that a text of hexadecimal digits in lower case stands for.
pub open spec fn hexadecimal_value(s: Seq<char>) -> nat
    decreases s.len(),
{
    if s.len() == 0 {
        0
    } else {
        (hexadecimal_value(s.drop_last()) * 16 + (if s.last() <= '9' {
            s.last() as int - '0' as int
        } else {
            s.last() as int - 'a' as int + 10
        })) as nat
    }
}

/// A decimal numeral reads back as its number, is made of digits alone, and begins with a zero only
/// where it is that of zero, which is one digit.
pub proof fn law_decimal_reads_back(n: nat)
    ensures
        decimal_value(decimal(n)) == n,
        forall|i: int| 0 <= i < decimal(n).len() ==> '0' <= #[trigger] decimal(n)[i] <= '9',
        decimal(n).len() > 0,
        decimal(n).len() > 1 ==> decimal(n)[0] != '0',
    decreases n,
{
    let t = decimal(n);
    if n < 10 {
        assert(t.drop_last() =~= Seq::<char>::empty());
        reveal_with_fuel(decimal_value, 2);
    } else {
        law_decimal_reads_back(n / 10);
        let front = decimal(n / 10);
        assert(t.drop_last() =~= front);
        assert forall|i: int| 0 <= i < t.len() implies '0' <= #[trigger] t[i] <= '9' by {
            if i < front.len() {
                assert(t[i] == front[i]);
            }
        }
        assert(t[0] == front[0]);
        if front.len() == 1 {
            assert(decimal_value(front) == n / 10);
            assert(front.drop_last() =~= Seq::<char>::empty());
            reveal_with_fuel(decimal_value, 2);
        }
    }
}

/// A hexadecimal numeral reads back as its number, is made of digits in lower case alone, and begins
/// with a zero only where it is that of zero, which is one digit.
pub proof fn law_hexadecimal_reads_back(n: nat)
    ensures
        hexadecimal_value(hexadecimal(n)) == n,
        forall|i: int|
            0 <= i < hexadecimal(n).len() ==> '0' <= #[trigger] hexadecimal(n)[i] <= '9' || 'a'
                <= hexadecimal(n)[i] <= 'f',
        hexadecimal(n).len() > 0,
        hexadecimal(n).len() > 1 ==> hexadecimal(n)[0] != '0',
    decreases n,
{
    let t = hexadecimal(n);
    if n < 16 {
        assert(t.drop_last() =~= Seq::<char>::empty());
        reveal_with_fuel(hexadecimal_value, 2);
    } else {
        law_hexadecimal_reads_back(n / 16);
        let front = hexadecimal(n / 16);
        assert(t.drop_last() =~= front);
        assert forall|i: int| 0 <= i < t.len() implies '0' <= #[trigger] t[i] <= '9' || 'a' <= t[i]
            <= 'f' by {
            if i < front.len() {
                assert(t[i] == front[i]);
            }
        }
        assert(t[0] == front[0]);
        if front.len() == 1 {
            assert(hexadecimal_value(front) == n / 16);
            assert(front.drop_last() =~= Seq::<char>::empty());
            reveal_with_fuel(hexadecimal_value, 2);
        }
    }
}

/// The parts of a text between the occurrences of a separator.
pub open spec fn fields(s: Seq<char>, separator: char) -> Seq<Seq<char>>
    decreases s.len(),
{
    if s.len() == 0 {
        seq![Seq::empty()]
    } else {
        let before = fields(s.drop_last(), separator);
        if s.last() == separator {
            before.push(Seq::empty())
        } else {
            before.drop_last().push(before.last().push(s.last()))
        }
    }
}

/// A text, a separator and a text without that separator: the latter is one more field.
pub proof fn law_fields_after_separator(s: Seq<char>, separator: char, t: Seq<char>)
    requires
        !t.contains(separator),
    ensures
        fields(s + seq![separator] + t, separator) == fields(s, separator).push(t),
    decreases t.len(),
{
    let whole = s + seq![separator] + t;
    if t.len() == 0 {
        assert(whole.drop_last() =~= s);
        assert(t =~= Seq::<char>::empty());
    } else {
        let front = t.drop_last();
        assert(whole.drop_last() =~= s + seq![separator] + front);
        assert(t.contains(t.last()));
        assert forall|c: char| front.contains(c) implies t.contains(c) by {
            let i = choose|i: int| 0 <= i < front.len() && front[i] == c;
            assert(t[i] == c);
        }
        law_fields_after_separator(s, separator, front);
        let before = fields(s, separator).push(front);
        assert(before.drop_last() =~= fields(s, separator));
        assert(front.push(t.last()) =~= t);
    }
}

/// A text without the separator is its only field.
pub proof fn law_field_without_separator(t: Seq<char>, separator: char)
    requires
        !t.contains(separator),
    ensures
        fields(t, separator) == seq![t],
    decreases t.len(),
{
    if t.len() == 0 {
        assert(t =~= Seq::<char>::empty());
    } else {
        let front = t.drop_last();
        assert(t.contains(t.last()));
        assert forall|c: char| front.contains(c) implies t.contains(c) by {
            let i = choose|i: int| 0 <= i < front.len() && front[i] == c;
            assert(t[i] == c);
        }
        law_field_without_separator(front, separator);
        assert(front.push(t.last()) =~= t);
        assert(seq![front].drop_last().push(t) =~= seq![t]);
    }
}

/// A list of texts that is joined item by item: each item but the first comes after one separator.
pub proof fn law_joined_grows_by_item(list: Seq<Seq<char>>, item: Seq<char>, separator: Seq<char>)
    ensures
        joined(Seq::empty(), separator) == Seq::<char>::empty(),
        joined(seq![item], separator) == item,
        list.len() > 0 ==> joined(list.push(item), separator) == joined(list, separator) + separator
            + item,
{
    assert(list.push(item).drop_last() =~= list);
}

/// White space separates: the words on both sides of it are the words of the whole text, and the
/// white space itself adds none.
pub proof fn law_white_space_separates(s: Seq<char>, c: char, t: Seq<char>)
    requires
        is_white(c),
    ensures
        words(s + seq![c] + t) == words(s) + words(t),
    decreases s.len(),
{
    let whole = s + seq![c] + t;
    if s.len() == 0 {
        assert(whole.drop_first() =~= t);
        assert(words(s) + words(t) =~= words(t));
    } else if is_white(s[0]) {
        law_white_space_separates(s.drop_first(), c, t);
        assert(whole.drop_first() =~= s.drop_first() + seq![c] + t);
    } else {
        lemma_word_len(s);
        let n = word_len(s);
        assert forall|i: int| 0 <= i < n implies !is_white(#[trigger] whole[i]) by {
            assert(whole[i] == s[i]);
        }
        lemma_word_len_is(whole, n);
        law_white_space_separates(s.skip(n as int), c, t);
        assert(whole.skip(n as int) =~= s.skip(n as int) + seq![c] + t);
        assert(whole.take(n as int) =~= s.take(n as int));
        assert(seq![s.take(n as int)] + (words(s.skip(n as int)) + words(t)) =~= words(s) + words(
            t,
        ));
    }
}

/// A text without white space is one word, itself; an empty text has none.
pub proof fn law_word_is_itself(w: Seq<char>)
    ensures
        is_word(w) ==> words(w) == seq![w],
        w.len() == 0 ==> words(w) == Seq::<Seq<char>>::empty(),
{
    if is_word(w) {
        lemma_words_of_word(w);
    }
}

/// A trimmed text is what is left between white space on both sides.
pub proof fn law_only_white_space_is_trimmed(s: Seq<char>)
    ensures
        exists|i: int, j: int|
            0 <= i <= j <= s.len() && trimmed(s) == #[trigger] s.subrange(i, j) && (forall|k: int|
                0 <= k < i || j <= k < s.len() ==> is_white(#[trigger] s[k])),
{
    let i = lemma_trimmed_start_cut(s);
    let rest = trimmed_start(s);
    let n = lemma_trimmed_end_cut(rest);
    assert(rest.take(n) =~= s.subrange(i, i + n));
    assert forall|k: int| 0 <= k < i || i + n <= k < s.len() implies is_white(#[trigger] s[k]) by {
        if k >= i + n {
            assert(rest[k - i] == s[k]);
        }
    }
}

proof fn lemma_trimmed_start_cut(s: Seq<char>) -> (i: int)
    ensures
        0 <= i <= s.len(),
        trimmed_start(s) == s.skip(i),
        forall|k: int| 0 <= k < i ==> is_white(#[trigger] s[k]),
    decreases s.len(),
{
    if s.len() > 0 && is_white(s[0]) {
        let rest = s.drop_first();
        let i = lemma_trimmed_start_cut(rest);
        assert(rest.skip(i) =~= s.skip(i + 1));
        assert forall|k: int| 0 <= k < i + 1 implies is_white(#[trigger] s[k]) by {
            if k > 0 {
                assert(rest[k - 1] == s[k]);
            }
        }
        i + 1
    } else {
        assert(s.skip(0) =~= s);
        0
    }
}

proof fn lemma_trimmed_end_cut(s: Seq<char>) -> (n: int)
    ensures
        0 <= n <= s.len(),
        trimmed_end(s) == s.take(n),
        forall|k: int| n <= k < s.len() ==> is_white(#[trigger] s[k]),
    decreases s.len(),
{
    if s.len() > 0 && is_white(s.last()) {
        let front = s.drop_last();
        let n = lemma_trimmed_end_cut(front);
        assert(front.take(n) =~= s.take(n));
        assert forall|k: int| n <= k < s.len() implies is_white(#[trigger] s[k]) by {
            if k < front.len() {
                assert(front[k] == s[k]);
            }
        }
        n
    } else {
        assert(s.take(s.len() as int) =~= s);
        s.len() as int
    }
}

/// Quotes are doubled one by one, wherever a text is cut; every other character stays as it is.
pub proof fn law_quotes_are_doubled_one_by_one(s: Seq<char>, t: Seq<char>, c: char)
    ensures
        doubled_quotes(s + t) == doubled_quotes(s) + doubled_quotes(t),
        doubled_quotes(seq![c]) == if c == '\'' {
            seq![c, c]
        } else {
            seq![c]
        },
    decreases s.len(),
{
    reveal_with_fuel(doubled_quotes, 2);
    assert(seq![c].drop_first() =~= Seq::<char>::empty());
    assert(doubled_quotes(seq![c]) =~= if c == '\'' {
        seq![c, c]
    } else {
        seq![c]
    });
    if s.len() == 0 {
        assert(s + t =~= t);
        assert(doubled_quotes(s) + doubled_quotes(t) =~= doubled_quotes(t));
    } else {
        law_quotes_are_doubled_one_by_one(s.drop_first(), t, c);
        assert((s + t).drop_first() =~= s.drop_first() + t);
        assert(doubled_quotes(s + t) =~= doubled_quotes(s) + doubled_quotes(t));
    }
}

/// Whether a text is a decimal numeral without needless zeros before it.
pub open spec fn is_decimal(t: Seq<char>) -> bool {
    &&& t.len() > 0
    &&& forall|i: int| 0 <= i < t.len() ==> '0' <= #[trigger] t[i] <= '9'
    &&& t.len() > 1 ==> t[0] != '0'
}

/// A decimal numeral is the numeral of the number that it stands for, and of no other number.
pub proof fn law_decimal_is_the_only_numeral(t: Seq<char>)
    requires
        is_decimal(t),
    ensures
        decimal(decimal_value(t)) == t,
        decimal_value(t) == 0 ==> t == seq!['0'],
    decreases t.len(),
{
    let front = t.drop_last();
    let last = (t.last() as int - '0' as int) as nat;
    assert('0' <= t[t.len() - 1] <= '9');
    if front.len() == 0 {
        assert(front =~= Seq::<char>::empty());
        reveal_with_fuel(decimal_value, 2);
        assert(digit(last) == t.last());
        assert(t =~= seq![t.last()]);
    } else {
        assert(is_decimal(front)) by {
            assert forall|i: int| 0 <= i < front.len() implies '0' <= #[trigger] front[i] <= '9' by {
                assert(front[i] == t[i]);
            }
            assert(front[0] == t[0]);
        }
        law_decimal_is_the_only_numeral(front);
        let n = decimal_value(front);
        assert(front[0] == t[0] && t[0] != '0');
        assert(n > 0);
        assert(decimal_value(t) == n * 10 + last);
        assert(decimal_value(t) / 10 == n && decimal_value(t) % 10 == last);
        assert(digit(last) == t.last());
        assert(front.push(t.last()) =~= t);
    }
}

/// Two numbers with the same decimal numeral are the same number.
pub proof fn law_decimals_differ(n: nat, m: nat)
    ensures
        decimal(n) == decimal(m) ==> n == m,
        is_decimal(decimal(n)),
        is_word(decimal(n)),
        forall|c: char| c < '0' || c > '9' ==> !#[trigger] decimal(n).contains(c),
{
    law_decimal_reads_back(n);
    law_decimal_reads_back(m);
    assert forall|c: char| c < '0' || c > '9' implies !#[trigger] decimal(n).contains(c) by {
        if decimal(n).contains(c) {
            let i = choose|i: int| 0 <= i < decimal(n).len() && decimal(n)[i] == c;
            assert('0' <= decimal(n)[i] <= '9');
        }
    }
    assert forall|i: int| 0 <= i < decimal(n).len() implies !is_white(#[trigger] decimal(n)[i]) by {
        assert('0' <= decimal(n)[i] <= '9');
    }
}

/// The fields of a text, joined by the separator, are the text again, and no field holds the
/// separator.
pub proof fn law_joined_fields(s: Seq<char>, separator: char)
    ensures
        fields(s, separator).len() > 0,
        joined(fields(s, separator), seq![separator]) == s,
        forall|i: int|
            0 <= i < fields(s, separator).len() ==> !(#[trigger] fields(s, separator)[i]).contains(
                separator,
            ),
    decreases s.len(),
{
    let all = fields(s, separator);
    if s.len() == 0 {
        assert(all.drop_last() =~= Seq::<Seq<char>>::empty());
        assert(s =~= Seq::<char>::empty());
    } else {
        let front = s.drop_last();
        let before = fields(front, separator);
        law_joined_fields(front, separator);
        if s.last() == separator {
            let empty = Seq::<char>::empty();
            law_joined_grows_by_item(before, empty, seq![separator]);
            assert(joined(before, seq![separator]) + seq![separator] + empty =~= s);
        } else {
            let kept = before.drop_last();
            let grown = before.last().push(s.last());
            law_joined_grows_by_item(kept, grown, seq![separator]);
            law_joined_grows_by_item(kept, before.last(), seq![separator]);
            assert(kept.push(before.last()) =~= before);
            if kept.len() == 0 {
                assert(before =~= seq![before.last()]);
                assert(all =~= seq![grown]);
                assert(grown =~= s);
            } else {
                assert(joined(kept, seq![separator]) + seq![separator] + grown =~= (joined(
                    kept,
                    seq![separator],
                ) + seq![separator] + before.last()).push(s.last()));
                assert(front.push(s.last()) =~= s);
            }
            assert(!grown.contains(separator)) by {
                if grown.contains(separator) {
                    let i = choose|i: int| 0 <= i < grown.len() && grown[i] == separator;
                    assert(before.last() == before[before.len() - 1]);
                    assert(before.last()[i] == separator);
                    assert(before.last().contains(separator));
                }
            }
        }
        assert forall|i: int| 0 <= i < all.len() implies !(#[trigger] all[i]).contains(
            separator,
        ) by {
            if i < all.len() - 1 {
                assert(all[i] == before[i]);
            }
        }
    }
}

/// The words on both sides of a space are the words of the whole text.
pub proof fn law_space_separates(s: Seq<char>, t: Seq<char>)
    ensures
        words(s + " "@ + t) == words(s) + words(t),
        words(s + seq![' '] + t) == words(s) + words(t),
        words(seq![' '] + t) == words(t),
        words(s + seq![' ']) == words(s),
{
    reveal_strlit(" ");
    assert(" "@ =~= seq![' ']);
    law_white_space_separates(s, ' ', t);
    let none = Seq::<char>::empty();
    law_word_is_itself(none);
    law_white_space_separates(none, ' ', t);
    law_white_space_separates(s, ' ', none);
    assert(none + seq![' '] + t =~= seq![' '] + t);
    assert(s + seq![' '] + none =~= s + seq![' ']);
    assert(words(none) + words(t) =~= words(t));
    assert(words(s) + words(none) =~= words(s));
}

/// Two words without anything between them are one word.
pub proof fn law_words_grow_together(a: Seq<char>, b: Seq<char>)
    requires
        is_word(a),
        is_word(b),
    ensures
        is_word(a + b),
        words(a + b) == seq![a + b],
{
    assert forall|i: int| 0 <= i < (a + b).len() implies !is_white(#[trigger] (a + b)[i]) by {
        if i < a.len() {
            assert((a + b)[i] == a[i]);
        } else {
            assert((a + b)[i] == b[i - a.len()]);
        }
    }
    law_word_is_itself(a + b);
}

/// The numbers of the twenty-five white space characters.
pub open spec fn white_space_numbers() -> Seq<int> {
    seq![
        0x9, 0xa, 0xb, 0xc, 0xd, 0x20, 0x85, 0xa0, 0x1680, 0x2000, 0x2001, 0x2002, 0x2003, 0x2004,
        0x2005, 0x2006, 0x2007, 0x2008, 0x2009, 0x200a, 0x2028, 0x2029, 0x202f, 0x205f, 0x3000,
    ]
}

/// White space is made of these characters and no others.
pub proof fn law_white_space_is_known_by_number(c: char)
    ensures
        is_white(c) <==> white_space_numbers().contains(c as int),
{
    let list = white_space_numbers();
    let n = c as int;
    assert(list.len() == 25);
    if is_white(c) {
        let i: int = if n <= 0xd {
            n - 0x9
        } else if n == 0x20 {
            5
        } else if n == 0x85 {
            6
        } else if n == 0xa0 {
            7
        } else if n == 0x1680 {
            8
        } else if n <= 0x200a {
            n - 0x2000 + 9
        } else if n == 0x2028 {
            20
        } else if n == 0x2029 {
            21
        } else if n == 0x202f {
            22
        } else if n == 0x205f {
            23
        } else {
            24
        };
        assert(list[i] == n);
    }
    if list.contains(n) {
        let i = choose|i: int| 0 <= i < list.len() && list[i] == n;
        assert(list[i] == n);
    }
}

} // verus!
