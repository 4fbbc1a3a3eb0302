use vstd::prelude::*;

verus! {

/// `String::push` of the standard library appends one character to the end of the
/// string and changes nothing else.
pub assume_specification[ String::push ](s: &mut String, ch: char)
    ensures
        final(s)@ == old(s)@.push(ch),
;

/// Whether `c` is white space in the sense of Unicode (the property `White_Space`).
pub open spec fn is_whitespace(c: char) -> bool {
    let n = c as u32;
    ||| 0x09 <= n <= 0x0D
    ||| n == 0x20
    ||| n == 0x85
    ||| n == 0xA0
    ||| n == 0x1680
    ||| 0x2000 <= n <= 0x200A
    ||| n == 0x2028
    ||| n == 0x2029
    ||| n == 0x202F
    ||| n == 0x205F
    ||| n == 0x3000
}

/// The first position at or after `from` that holds no white space, or the length
/// of `s` if there is none.
pub open spec fn skip_whitespace(s: Seq<char>, from: int) -> int
    decreases s.len() - from,
{
    if 0 <= from < s.len() && is_whitespace(s[from]) {
        skip_whitespace(s, from + 1)
    } else {
        from
    }
}

/// The end of the last stretch before `to` that does not end in white space, or
/// zero if everything before `to` is white space.
pub open spec fn drop_whitespace(s: Seq<char>, to: int) -> int
    decreases to,
{
    if 0 < to <= s.len() && is_whitespace(s[to - 1]) {
        drop_whitespace(s, to - 1)
    } else {
        to
    }
}

/// `s` without the white space at its start and at its end.
pub open spec fn trim(s: Seq<char>) -> Seq<char> {
    let from = skip_whitespace(s, 0);
    let to = drop_whitespace(s, s.len() as int);
    if from < to {
        s.subrange(from, to)
    } else {
        Seq::empty()
    }
}

/// The first position at or after `from` that holds `sep`, or the length of `s` if
/// there is none.
pub open spec fn find(s: Seq<char>, sep: char, from: int) -> int
    decreases s.len() - from,
{
    if 0 <= from < s.len() && s[from] != sep {
        find(s, sep, from + 1)
    } else {
        from
    }
}

/// The pieces of `s` from position `from` on that lie between occurrences of
/// `sep`.
pub open spec fn split_from(s: Seq<char>, sep: char, from: int) -> Seq<Seq<char>>
    decreases s.len() - from,
{
    let at = find(s, sep, from);
    if 0 <= from <= at < s.len() {
        seq![s.subrange(from, at)].add(split_from(s, sep, at + 1))
    } else {
        seq![s.subrange(from, s.len() as int)]
    }
}

/// The pieces of `s` that lie between occurrences of `sep`, in order. There is one
/// piece more than there are occurrences; a piece is empty where two occurrences
/// touch or where `s` starts or ends with one.
pub open spec fn split(s: Seq<char>, sep: char) -> Seq<Seq<char>> {
    split_from(s, sep, 0)
}

/// The pieces `pieces` put together again with `sep` between each two.
pub open spec fn join(pieces: Seq<Seq<char>>, sep: char) -> Seq<char>
    decreases pieces.len(),
{
    if pieces.len() == 0 {
        Seq::empty()
    } else if pieces.len() == 1 {
        pieces[0]
    } else {
        pieces[0] + seq![sep] + join(pieces.drop_first(), sep)
    }
}

/// Whether `c` is one of the ten decimal digits.
pub open spec fn is_digit(c: char) -> bool {
    '0' <= c <= '9'
}

/// The number that the decimal digits `s` spell.
pub open spec fn digits_value(s: Seq<char>) -> nat
    decreases s.len(),
{
    if s.len() == 0 {
        0
    } else {
        digits_value(s.drop_last()) * 10 + (s.last() as u32 - '0' as u32) as nat
    }
}

/// The number that `digits` spells, if it is one or more decimal digits and
/// nothing else, and the number is one that an index can hold.
pub open spec fn spell(digits: Seq<char>) -> Option<usize> {
    if digits.len() > 0 && (forall|i: int| 0 <= i < digits.len() ==> is_digit(#[trigger] digits[i]))
        && digits_value(digits) <= usize::MAX {
        Some(digits_value(digits) as usize)
    } else {
        None
    }
}

/// The index that `s` spells: an optional plus sign, then what `spell` reads.
pub open spec fn parse_usize(s: Seq<char>) -> Option<usize> {
    if s.len() > 0 && s[0] == '+' {
        spell(s.subrange(1, s.len() as int))
    } else {
        spell(s)
    }
}

/// The first position at or after `from` that holds no decimal digit, or the
/// length of `s` if there is none.
pub open spec fn skip_digits(s: Seq<char>, from: int) -> int
    decreases s.len() - from,
{
    if 0 <= from < s.len() && is_digit(s[from]) {
        skip_digits(s, from + 1)
    } else {
        from
    }
}

/// The code of `c`, or the code of its small letter if `c` is a capital letter of
/// the basic Latin alphabet.
pub open spec fn lowered(c: char) -> u32 {
    if 'A' <= c <= 'Z' {
        ((c as u32) + 32) as u32
    } else {
        c as u32
    }
}

/// Whether `s` from position `from` to its end reads `word`, capital letters
/// counting as small ones.
pub open spec fn ends_in_word(s: Seq<char>, from: int, word: Seq<char>) -> bool {
    &&& s.len() - from == word.len()
    &&& forall|i: int| 0 <= i < word.len() ==> lowered(#[trigger] s[from + i]) == word[i] as u32
}

/// Whether `s` from position `from` to its end is an exponent: the letter `e`,
/// small or capital, an optional sign, then one or more decimal digits.
pub open spec fn ends_in_exponent(s: Seq<char>, from: int) -> bool {
    let digits = if from + 1 < s.len() && (s[from + 1] == '+' || s[from + 1] == '-') {
        from + 2
    } else {
        from + 1
    };
    &&& 0 <= from < s.len()
    &&& lowered(s[from]) == 'e' as u32
    &&& digits < s.len()
    &&& skip_digits(s, digits) == s.len()
}

/// Whether `s` from position `from` to its end is a decimal number without sign:
/// digits, optionally a point and more digits, with at least one digit before or
/// after the point, and optionally an exponent.
pub open spec fn ends_in_decimal(s: Seq<char>, from: int) -> bool {
    let whole_end = skip_digits(s, from);
    let pointed = whole_end < s.len() && s[whole_end] == '.';
    let fraction_end = if pointed {
        skip_digits(s, whole_end + 1)
    } else {
        whole_end
    };
    let digits = if pointed {
        fraction_end - from - 1
    } else {
        fraction_end - from
    };
    &&& digits >= 1
    &&& (fraction_end == s.len() || ends_in_exponent(s, fraction_end))
}

/// Whether `s` spells a real number: an optional sign, then `inf`, `infinity` or
/// `nan` in small or capital letters, or a decimal number. No white space, no
/// other character.
pub open spec fn is_number(s: Seq<char>) -> bool {
    let from: int = if s.len() > 0 && (s[0] == '+' || s[0] == '-') {
        1
    } else {
        0
    };
    ||| ends_in_word(s, from, "inf"@)
    ||| ends_in_word(s, from, "infinity"@)
    ||| ends_in_word(s, from, "nan"@)
    ||| ends_in_decimal(s, from)
}

/// The text that each of `spans` cuts out of `text`.
pub open spec fn cut(text: Seq<char>, spans: Seq<(usize, usize)>) -> Seq<Seq<char>> {
    Seq::new(spans.len(), |k: int| text.subrange(spans[k].0 as int, spans[k].1 as int))
}

/// The characters of `s`, one by one.
pub fn chars_of(s: &str) -> (text: Vec<char>)
    ensures
        text@ == s@,
{
    let mut text: Vec<char> = Vec::new();
    for c in it: s.chars()
        invariant
            text@ == it.seq().take(it.index() as int),
            it.seq() == s@,
    {
        text.push(c);
        proof {
            assert(it.seq().take(it.index() + 1) =~= it.seq().take(it.index() as int).push(c));
        }
    }
    proof {
        assert(text@ =~= s@);
    }
    text
}

/// The characters of `text` from `from` up to `to`, as a string.
pub fn string_of(text: &Vec<char>, from: usize, to: usize) -> (s: String)
    requires
        from <= to <= text@.len(),
    ensures
        s@ == text@.subrange(from as int, to as int),
{
    let mut s = String::new();
    let mut i = from;
    while i < to
        invariant
            from <= i <= to <= text@.len(),
            s@ == text@.subrange(from as int, i as int),
        decreases to - i,
    {
        s.push(text[i]);
        proof {
            assert(text@.subrange(from as int, i + 1) =~= text@.subrange(from as int, i as int).push(
                text@[i as int],
            ));
        }
        i += 1;
    }
    s
}

/// Whether `c` is white space.
pub fn is_space(c: char) -> (b: bool)
    ensures
        b == is_whitespace(c),
{
    let n = c as u32;
    (0x09 <= n && n <= 0x0D) || n == 0x20 || n == 0x85 || n == 0xA0 || n == 0x1680 || (0x2000 <= n
        && n <= 0x200A) || n == 0x2028 || n == 0x2029 || n == 0x202F || n == 0x205F || n == 0x3000
}

/// Where the part of `text` from `from` up to `to` starts and ends once the white
/// space around it is gone.
pub fn trim_span(text: &Vec<char>, from: usize, to: usize) -> (span: (usize, usize))
    requires
        from <= to <= text@.len(),
    ensures
        from <= span.0 <= span.1 <= to,
        text@.subrange(span.0 as int, span.1 as int) == trim(text@.subrange(from as int, to as int)),
{
    let ghost part = text@.subrange(from as int, to as int);
    let mut a = from;
    while a < to && is_space(text[a])
        invariant
            from <= a <= to <= text@.len(),
            part == text@.subrange(from as int, to as int),
            skip_whitespace(part, 0) == skip_whitespace(part, a - from),
        decreases to - a,
    {
        proof {
            assert(part[a - from] == text@[a as int]);
        }
        a += 1;
    }
    let mut b = to;
    while b > a && is_space(text[b - 1])
        invariant
            from <= a <= b <= to <= text@.len(),
            part == text@.subrange(from as int, to as int),
            drop_whitespace(part, part.len() as int) == drop_whitespace(part, b - from),
        decreases b,
    {
        proof {
            assert(part[b - 1 - from] == text@[b - 1]);
        }
        b -= 1;
    }
    proof {
        if a < to {
            assert(part[a - from] == text@[a as int]);
            assert(skip_whitespace(part, 0) == a - from);
            if b == a {
                lemma_drop_whitespace(part, part.len() as int);
                lemma_drop_whitespace(part, a - from);
                assert(false);
            }
            assert(part[b - 1 - from] == text@[b - 1]);
            assert(drop_whitespace(part, part.len() as int) == b - from);
            assert(text@.subrange(a as int, b as int) =~= part.subrange(a - from, b - from));
        } else {
            assert(skip_whitespace(part, 0) == part.len());
            lemma_drop_whitespace(part, part.len() as int);
            assert(text@.subrange(a as int, b as int) =~= Seq::<char>::empty());
        }
    }
    (a, b)
}

/// Cuts the part of `text` from `from` up to `to` at every occurrence of `sep` and
/// says where each piece starts and ends.
pub fn split_spans(text: &Vec<char>, from: usize, to: usize, sep: char) -> (spans: Vec<
    (usize, usize),
>)
    requires
        from <= to <= text@.len(),
    ensures
        cut(text@, spans@) == split(text@.subrange(from as int, to as int), sep),
        spans@.len() >= 1,
        forall|k: int|
            0 <= k < spans@.len() ==> from <= (#[trigger] spans@[k]).0 <= spans@[k].1 <= to,
{
    let ghost part = text@.subrange(from as int, to as int);
    let mut spans: Vec<(usize, usize)> = Vec::new();
    let mut start = from;
    let mut i = from;
    while i < to
        invariant
            from <= start <= i <= to <= text@.len(),
            part == text@.subrange(from as int, to as int),
            find(part, sep, start - from) == find(part, sep, i - from),
            split(part, sep) == cut(text@, spans@).add(split_from(part, sep, start - from)),
            forall|k: int|
                0 <= k < spans@.len() ==> from <= (#[trigger] spans@[k]).0 <= spans@[k].1 <= to,
        decreases to - i,
    {
        proof {
            assert(part[i - from] == text@[i as int]);
        }
        if text[i] == sep {
            proof {
                let before = cut(text@, spans@);
                let piece = part.subrange(start - from, i - from);
                assert(find(part, sep, i - from) == i - from);
                assert(split_from(part, sep, start - from) == seq![piece].add(
                    split_from(part, sep, i - from + 1),
                ));
                assert(text@.subrange(start as int, i as int) =~= piece);
                assert(cut(text@, spans@.push((start, i))) =~= before.push(piece));
                assert(before.add(seq![piece].add(split_from(part, sep, i - from + 1)))
                    =~= before.push(piece).add(split_from(part, sep, i - from + 1)));
            }
            spans.push((start, i));
            start = i + 1;
        }
        i += 1;
    }
    proof {
        let before = cut(text@, spans@);
        let piece = part.subrange(start - from, part.len() as int);
        assert(find(part, sep, i - from) == i - from);
        assert(split_from(part, sep, start - from) == seq![piece]);
        assert(text@.subrange(start as int, to as int) =~= piece);
        assert(cut(text@, spans@.push((start, to))) =~= before.push(piece));
        assert(before.add(seq![piece]) =~= before.push(piece));
    }
    spans.push((start, to));
    spans
}

/// Whether the part of `text` from `from` up to `to` reads exactly `word`.
pub fn span_is(text: &Vec<char>, from: usize, to: usize, word: &str) -> (same: bool)
    requires
        from <= to <= text@.len(),
    ensures
        same == (text@.subrange(from as int, to as int) == word@),
{
    let letters = chars_of(word);
    if letters.len() != to - from {
        return false;
    }
    let mut i: usize = 0;
    while i < letters.len()
        invariant
            from <= to <= text@.len(),
            letters@.len() == to - from,
            letters@ == word@,
            i <= letters@.len(),
            forall|j: int| 0 <= j < i ==> text@[from + j] == letters@[j],
        decreases letters@.len() - i,
    {
        if text[from + i] != letters[i] {
            proof {
                assert(text@.subrange(from as int, to as int)[i as int] != letters@[i as int]);
            }
            return false;
        }
        i += 1;
    }
    proof {
        assert(text@.subrange(from as int, to as int) =~= letters@);
    }
    true
}

/// The code of `c`, capital letters of the basic Latin alphabet counting as small
/// ones.
pub fn to_lower(c: char) -> (code: u32)
    ensures
        code == lowered(c),
{
    if 'A' <= c && c <= 'Z' {
        c as u32 + 32
    } else {
        c as u32
    }
}

fn digits_end(text: &Vec<char>, start: usize, from: usize, to: usize) -> (end: usize)
    requires
        start <= from <= to <= text@.len(),
    ensures
        from <= end <= to,
        end - start == skip_digits(text@.subrange(start as int, to as int), from - start),
{
    let ghost part = text@.subrange(start as int, to as int);
    let mut i = from;
    while i < to && '0' <= text[i] && text[i] <= '9'
        invariant
            start <= from <= i <= to <= text@.len(),
            part == text@.subrange(start as int, to as int),
            skip_digits(part, from - start) == skip_digits(part, i - start),
        decreases to - i,
    {
        proof {
            assert(part[i - start] == text@[i as int]);
        }
        i += 1;
    }
    proof {
        if i < to {
            assert(part[i - start] == text@[i as int]);
        }
    }
    i
}

fn word_at(text: &Vec<char>, start: usize, from: usize, to: usize, word: &str) -> (same: bool)
    requires
        start <= from <= to <= text@.len(),
    ensures
        same == ends_in_word(text@.subrange(start as int, to as int), from - start, word@),
{
    let ghost part = text@.subrange(start as int, to as int);
    let letters = chars_of(word);
    if letters.len() != to - from {
        return false;
    }
    let mut i: usize = 0;
    while i < letters.len()
        invariant
            start <= from <= to <= text@.len(),
            part == text@.subrange(start as int, to as int),
            letters@.len() == to - from,
            letters@ == word@,
            i <= letters@.len(),
            forall|j: int|
                0 <= j < i ==> lowered(#[trigger] part[from - start + j]) == letters@[j] as u32,
        decreases letters@.len() - i,
    {
        proof {
            assert(part[from - start + i] == text@[from + i]);
        }
        if to_lower(text[from + i]) != letters[i] as u32 {
            return false;
        }
        i += 1;
    }
    true
}

fn exponent_at(text: &Vec<char>, start: usize, from: usize, to: usize) -> (is: bool)
    requires
        start <= from <= to <= text@.len(),
    ensures
        is == ends_in_exponent(text@.subrange(start as int, to as int), from - start),
{
    let ghost part = text@.subrange(start as int, to as int);
    if from >= to {
        return false;
    }
    proof {
        assert(part[from - start] == text@[from as int]);
    }
    if to_lower(text[from]) != 'e' as u32 {
        return false;
    }
    proof {
        if from + 1 < to {
            assert(part[from + 1 - start] == text@[from + 1]);
        }
    }
    let digits = if from + 1 < to && (text[from + 1] == '+' || text[from + 1] == '-') {
        from + 2
    } else {
        from + 1
    };
    if digits >= to {
        return false;
    }
    digits_end(text, start, digits, to) == to
}

/// Whether the part of `text` from `from` up to `to` spells a real number.
pub fn is_number_at(text: &Vec<char>, from: usize, to: usize) -> (is: bool)
    requires
        from <= to <= text@.len(),
    ensures
        is == is_number(text@.subrange(from as int, to as int)),
{
    let ghost part = text@.subrange(from as int, to as int);
    proof {
        if from < to {
            assert(part[0] == text@[from as int]);
        }
    }
    let first = if from < to && (text[from] == '+' || text[from] == '-') {
        from + 1
    } else {
        from
    };
    if word_at(text, from, first, to, "inf") || word_at(text, from, first, to, "infinity")
        || word_at(text, from, first, to, "nan") {
        return true;
    }
    let whole_end = digits_end(text, from, first, to);
    proof {
        if whole_end < to {
            assert(part[whole_end - from] == text@[whole_end as int]);
        }
    }
    let pointed = whole_end < to && text[whole_end] == '.';
    let fraction_end = if pointed {
        digits_end(text, from, whole_end + 1, to)
    } else {
        whole_end
    };
    let digits = if pointed {
        fraction_end - first - 1
    } else {
        fraction_end - first
    };
    if digits < 1 {
        return false;
    }
    fraction_end == to || exponent_at(text, from, fraction_end, to)
}

/// Reads the part of `text` from `from` up to `to` as an index written in decimal.
pub fn read_usize(text: &Vec<char>, from: usize, to: usize) -> (number: Option<usize>)
    requires
        from <= to <= text@.len(),
    ensures
        number == parse_usize(text@.subrange(from as int, to as int)),
{
    let ghost part = text@.subrange(from as int, to as int);
    let first = if from < to && text[from] == '+' {
        from + 1
    } else {
        from
    };
    let ghost digits = text@.subrange(first as int, to as int);
    proof {
        if from < to {
            assert(part[0] == text@[from as int]);
        }
        assert(digits =~= if part.len() > 0 && part[0] == '+' {
            part.subrange(1, part.len() as int)
        } else {
            part
        });
    }
    if first == to {
        return None;
    }
    let mut value: usize = 0;
    let mut i = first;
    while i < to
        invariant
            from <= first <= i <= to <= text@.len(),
            first < to,
            digits == text@.subrange(first as int, to as int),
            parse_usize(text@.subrange(from as int, to as int)) == spell(digits),
            forall|j: int| 0 <= j < i - first ==> is_digit(#[trigger] digits[j]),
            value == digits_value(digits.take(i - first)),
        decreases to - i,
    {
        let c = text[i];
        proof {
            assert(digits[i - first] == c);
            assert(digits.take(i - first + 1).drop_last() =~= digits.take(i - first));
            lemma_digits_value_grows(digits, i - first + 1);
        }
        if !('0' <= c && c <= '9') {
            proof {
                assert(!is_digit(digits[i - first]));
            }
            return None;
        }
        let digit = (c as u32 - '0' as u32) as usize;
        if value > (usize::MAX - digit) / 10 {
            proof {
                assert(value * 10 + digit > usize::MAX) by (nonlinear_arith)
                    requires
                        value > (usize::MAX - digit) / 10,
                        0 <= digit <= 9,
                ;
            }
            return None;
        }
        assert(value * 10 + digit <= usize::MAX) by (nonlinear_arith)
            requires
                value <= (usize::MAX - digit) / 10,
                0 <= digit <= 9,
        ;
        value = value * 10 + digit;
        i += 1;
    }
    proof {
        assert(digits.take(to - first) =~= digits);
    }
    Some(value)
}

/// `find` stops at the first occurrence of `sep`: nothing before it is `sep`, and
/// it is `sep` unless the text has run out.
pub proof fn lemma_find(s: Seq<char>, sep: char, from: int)
    requires
        0 <= from <= s.len(),
    ensures
        from <= find(s, sep, from) <= s.len(),
        forall|i: int| from <= i < find(s, sep, from) ==> s[i] != sep,
        find(s, sep, from) < s.len() ==> s[find(s, sep, from)] == sep,
    decreases s.len() - from,
{
    if from < s.len() && s[from] != sep {
        lemma_find(s, sep, from + 1);
    }
}

/// Cutting loses nothing and leaves no separator behind: no piece holds `sep`, and
/// the pieces joined by `sep` are the text again.
pub proof fn lemma_split_join(s: Seq<char>, sep: char)
    ensures
        join(split(s, sep), sep) == s,
        forall|k: int, i: int|
            0 <= k < split(s, sep).len() && 0 <= i < split(s, sep)[k].len() ==> (
            #[trigger] split(s, sep)[k][i]) != sep,
{
    lemma_split_from_join(s, sep, 0);
    assert(s.subrange(0, s.len() as int) =~= s);
}

proof fn lemma_split_from_join(s: Seq<char>, sep: char, from: int)
    requires
        0 <= from <= s.len(),
    ensures
        split_from(s, sep, from).len() >= 1,
        join(split_from(s, sep, from), sep) == s.subrange(from, s.len() as int),
        forall|k: int, i: int|
            0 <= k < split_from(s, sep, from).len() && 0 <= i < split_from(s, sep, from)[k].len()
                ==> (#[trigger] split_from(s, sep, from)[k][i]) != sep,
    decreases s.len() - from,
{
    lemma_find(s, sep, from);
    let at = find(s, sep, from);
    let pieces = split_from(s, sep, from);
    if at < s.len() {
        lemma_split_from_join(s, sep, at + 1);
        let rest = split_from(s, sep, at + 1);
        let head = s.subrange(from, at);
        assert(pieces == seq![head].add(rest));
        assert(pieces.drop_first() =~= rest);
        assert(pieces[0] == head);
        assert(join(pieces, sep) == head + seq![sep] + join(rest, sep));
        assert(head + seq![sep] + s.subrange(at + 1, s.len() as int) =~= s.subrange(
            from,
            s.len() as int,
        ));
        assert forall|k: int, i: int|
            0 <= k < pieces.len() && 0 <= i < pieces[k].len() implies (#[trigger] pieces[k][i])
            != sep by {
            if k == 0 {
                assert(head[i] == s[from + i]);
            } else {
                assert(pieces[k] == rest[k - 1]);
                assert(rest[k - 1][i] != sep);
            }
        }
    } else {
        let whole = s.subrange(from, s.len() as int);
        assert(pieces == seq![whole]);
        assert(pieces[0] == whole);
        assert forall|k: int, i: int|
            0 <= k < pieces.len() && 0 <= i < pieces[k].len() implies (#[trigger] pieces[k][i])
            != sep by {
            assert(whole[i] == s[from + i]);
        }
    }
}

/// Trimming takes away white space and nothing else, and all of it at both ends:
/// what is cut off in front and behind is white space, and what is left neither
/// starts nor ends with white space.
pub proof fn lemma_trim_is_tight(s: Seq<char>)
    ensures
        forall|i: int| 0 <= i < skip_whitespace(s, 0) && i < s.len() ==> is_whitespace(s[i]),
        forall|i: int| drop_whitespace(s, s.len() as int) <= i < s.len() ==> is_whitespace(s[i]),
        trim(s).len() > 0 ==> !is_whitespace(trim(s)[0]) && !is_whitespace(trim(s).last()),
        trim(s).len() == 0 ==> forall|i: int| 0 <= i < s.len() ==> is_whitespace(s[i]),
{
    lemma_skip_whitespace(s, 0);
    lemma_drop_whitespace(s, s.len() as int);
    let from = skip_whitespace(s, 0);
    let to = drop_whitespace(s, s.len() as int);
    if from < to {
        assert(trim(s)[0] == s[from]);
        assert(trim(s).last() == s[to - 1]);
    } else {
        assert forall|i: int| 0 <= i < s.len() implies is_whitespace(s[i]) by {
            if i >= from {
                assert(to <= i);
            }
        }
    }
}

proof fn lemma_skip_whitespace(s: Seq<char>, from: int)
    requires
        0 <= from <= s.len(),
    ensures
        from <= skip_whitespace(s, from) <= s.len(),
        forall|i: int| from <= i < skip_whitespace(s, from) ==> is_whitespace(s[i]),
        skip_whitespace(s, from) < s.len() ==> !is_whitespace(s[skip_whitespace(s, from)]),
    decreases s.len() - from,
{
    if from < s.len() && is_whitespace(s[from]) {
        lemma_skip_whitespace(s, from + 1);
    }
}

proof fn lemma_drop_whitespace(s: Seq<char>, to: int)
    requires
        0 <= to <= s.len(),
    ensures
        0 <= drop_whitespace(s, to) <= to,
        forall|i: int| drop_whitespace(s, to) <= i < to ==> is_whitespace(s[i]),
        drop_whitespace(s, to) > 0 ==> !is_whitespace(s[drop_whitespace(s, to) - 1]),
    decreases to,
{
    if 0 < to && is_whitespace(s[to - 1]) {
        lemma_drop_whitespace(s, to - 1);
    }
}

/// A number spelt by more digits is no smaller than the number its first digits
/// spell.
proof fn lemma_digits_value_grows(s: Seq<char>, n: int)
    requires
        0 <= n <= s.len(),
    ensures
        digits_value(s.take(n)) <= digits_value(s),
    decreases s.len() - n,
{
    if n < s.len() {
        lemma_digits_value_grows(s, n + 1);
        assert(s.take(n + 1).drop_last() =~= s.take(n));
    } else {
        assert(s.take(n) =~= s);
    }
}

} // verus!
