//! Characters, words and the small string edits that formatting is made of.
use vstd::prelude::*;
use vstd::utf8;

verus! {

/// The Unicode `White_Space` property.
pub open spec fn white_space(c: char) -> bool {
    ||| '\t' <= c <= '\r'
    ||| c == ' '
    ||| c == '\u{85}'
    ||| c == '\u{a0}'
    ||| c == '\u{1680}'
    ||| '\u{2000}' <= c <= '\u{200a}'
    ||| '\u{2028}' <= c <= '\u{2029}'
    ||| c == '\u{202f}'
    ||| c == '\u{205f}'
    ||| c == '\u{3000}'
}

/// True of the private-use characters of the basic plane, which Unicode gives no
/// meaning and no case.
pub open spec fn private_use(c: char) -> bool {
    '\u{E000}' <= c <= '\u{F8FF}'
}

/// `char::is_whitespace`: true exactly of the characters with the Unicode
/// property `White_Space`.
pub assume_specification[ char::is_whitespace ](c: char) -> (r: bool)
    ensures
        r == white_space(c),
;

/// `String::push`: appends the character to the end of the string.
pub assume_specification[ String::push ](s: &mut String, c: char)
    ensures
        final(s)@ == old(s)@.push(c),
;

/// `String::pop`: removes the last character and returns it, or returns `None`
/// and leaves the string alone where it is empty.
pub assume_specification[ String::pop ](s: &mut String) -> (r: Option<char>)
    ensures
        old(s)@.len() == 0 ==> r is None && final(s)@ == old(s)@,
        old(s)@.len() > 0 ==> r == Some(old(s)@.last()) && final(s)@ == old(s)@.drop_last(),
;

/// The words of `s`: its maximal runs of characters that are not white space,
/// from left to right.
pub open spec fn words(s: Seq<char>) -> Seq<Seq<char>>
    decreases s.len(),
{
    if s.len() == 0 {
        Seq::empty()
    } else {
        let before = words(s.drop_last());
        let c = s.last();
        if white_space(c) {
            before
        } else if s.len() > 1 && !white_space(s[s.len() - 2]) {
            before.drop_last().push(before.last().push(c))
        } else {
            before.push(seq![c])
        }
    }
}

/// True where every character of `s` is white space.
pub open spec fn blank(s: Seq<char>) -> bool {
    forall|i: int| 0 <= i < s.len() ==> white_space(#[trigger] s[i])
}

/// A string has no words exactly where it is blank.
pub proof fn lemma_blank_has_no_words(s: Seq<char>)
    ensures
        blank(s) <==> words(s).len() == 0,
    decreases s.len(),
{
    if s.len() > 0 {
        let before = s.drop_last();
        lemma_blank_has_no_words(before);
        if white_space(s.last()) {
            assert(blank(s) ==> blank(before)) by {
                if blank(s) {
                    assert forall|i: int| 0 <= i < before.len() implies white_space(
                        #[trigger] before[i],
                    ) by {
                        assert(before[i] == s[i]);
                    }
                }
            }
            assert(blank(before) ==> blank(s)) by {
                if blank(before) {
                    assert forall|i: int| 0 <= i < s.len() implies white_space(
                        #[trigger] s[i],
                    ) by {
                        if i < before.len() {
                            assert(before[i] == s[i]);
                        }
                    }
                }
            }
        } else {
            assert(!white_space(s[s.len() - 1]));
        }
    }
}

/// True of a list of words that is not empty: no word is empty, and none has white
/// space in it.
pub open spec fn proper_words(words: Seq<Seq<char>>) -> bool {
    &&& words.len() > 0
    &&& forall|k: int|
        0 <= k < words.len() ==> {
            &&& (#[trigger] words[k]).len() > 0
            &&& forall|i: int|
                0 <= i < words[k].len() ==> !white_space(#[trigger] words[k][i])
        }
}

/// The words of a string are not empty and hold no white space.
pub proof fn lemma_words_are_proper(s: Seq<char>)
    ensures
        words(s).len() > 0 ==> proper_words(words(s)),
    decreases s.len(),
{
    if s.len() > 0 {
        let before = words(s.drop_last());
        lemma_words_are_proper(s.drop_last());
        lemma_blank_has_no_words(s.drop_last());
        let now = words(s);
        if !white_space(s.last()) {
            if s.len() > 1 && !white_space(s[s.len() - 2]) {
                assert(s.drop_last()[s.len() - 2] == s[s.len() - 2]);
                assert(before.len() > 0);
            }
            assert forall|k: int| 0 <= k < now.len() implies {
                &&& (#[trigger] now[k]).len() > 0
                &&& forall|i: int|
                    0 <= i < now[k].len() ==> !white_space(#[trigger] now[k][i])
            } by {
                if k < now.len() - 1 {
                    assert(now[k] == before[k]);
                } else if now.len() == before.len() {
                    assert forall|i: int| 0 <= i < now[k].len() implies !white_space(
                        #[trigger] now[k][i],
                    ) by {
                        if i < now[k].len() - 1 {
                            assert(now[k][i] == before[k][i]);
                        }
                    }
                }
            }
        }
    }
}

/// The words of a string are made of its characters.
pub proof fn lemma_words_are_made_of(s: Seq<char>)
    ensures
        forall|k: int, i: int|
            0 <= k < words(s).len() && 0 <= i < words(s)[k].len() ==> s.contains(
                #[trigger] words(s)[k][i],
            ),
    decreases s.len(),
{
    if s.len() > 0 {
        let shorter = s.drop_last();
        let before = words(shorter);
        let now = words(s);
        lemma_words_are_made_of(shorter);
        lemma_blank_has_no_words(shorter);
        if s.len() > 1 && !white_space(s[s.len() - 2]) {
            assert(shorter[s.len() - 2] == s[s.len() - 2]);
        }
        assert forall|k: int, i: int|
            0 <= k < now.len() && 0 <= i < now[k].len() implies s.contains(
            #[trigger] now[k][i],
        ) by {
            if k < before.len() && i < before[k].len() {
                assert(now[k][i] == before[k][i]);
                assert(shorter.contains(before[k][i]));
                let j = choose|j: int| 0 <= j < shorter.len() && shorter[j] == before[k][i];
                assert(s[j] == now[k][i]);
            } else {
                assert(now[k][i] == s[s.len() - 1]);
            }
        }
    }
}

/// White space at the end of a string makes no difference to its words.
proof fn lemma_words_before_space(s: Seq<char>, space: Seq<char>)
    requires
        blank(space),
    ensures
        words(s + space) == words(s),
    decreases space.len(),
{
    if space.len() == 0 {
        assert(s + space =~= s);
    } else {
        let less = space.drop_last();
        assert(white_space(space[space.len() - 1]));
        assert((s + space).drop_last() =~= s + less);
        assert forall|i: int| 0 <= i < less.len() implies white_space(#[trigger] less[i]) by {
            assert(less[i] == space[i]);
        }
        lemma_words_before_space(s, less);
    }
}

/// White space at the start of a string makes no difference to its words.
proof fn lemma_words_behind_space(space: Seq<char>, s: Seq<char>)
    requires
        blank(space),
    ensures
        words(space + s) == words(s),
    decreases s.len(),
{
    if s.len() == 0 {
        assert(space + s =~= s + space);
        lemma_words_before_space(s, space);
    } else {
        let all = space + s;
        assert(all.drop_last() =~= space + s.drop_last());
        lemma_words_behind_space(space, s.drop_last());
        assert(all.last() == s.last());
        if s.len() > 1 {
            assert(all[all.len() - 2] == s[s.len() - 2]);
        } else if space.len() > 0 {
            assert(all[all.len() - 2] == space[space.len() - 1]);
        }
    }
}

/// White space around a text makes no difference to its words.
pub proof fn law_outer_white_space(left: Seq<char>, s: Seq<char>, right: Seq<char>)
    requires
        blank(left),
        blank(right),
    ensures
        words(left + s + right) == words(s),
{
    lemma_words_before_space(left + s, right);
    lemma_words_behind_space(left, s);
}

/// The characters of `s`.
pub fn chars_of(s: &str) -> (r: Vec<char>)
    ensures
        r@ == s@,
{
    let mut r: Vec<char> = Vec::new();
    for c in it: s.chars()
        invariant
            r@ == it.seq().take(it.index()),
            it.seq() == s@,
    {
        r.push(c);
    }
    r
}

/// The string of the characters in `chars` from `from` up to `to`.
pub fn string_between(chars: &[char], from: usize, to: usize) -> (r: String)
    requires
        from <= to <= chars@.len(),
    ensures
        r@ == chars@.subrange(from as int, to as int),
{
    let mut r = String::new();
    for i in from..to
        invariant
            from <= to <= chars@.len(),
            r@ == chars@.subrange(from as int, i as int),
    {
        r.push(chars[i]);
        assert(chars@.subrange(from as int, i + 1) =~= chars@.subrange(from as int, i as int).push(
            chars@[i as int],
        ));
    }
    r
}

/// The place of the first `c` in `s`, or the length of `s` where it has none.
pub open spec fn first_index(s: Seq<char>, c: char) -> nat
    decreases s.len(),
{
    if s.len() == 0 || s[0] == c {
        0
    } else {
        1 + first_index(s.drop_first(), c)
    }
}

/// `first_index` is the one place that has no `c` before it and is either a `c`
/// or the end.
pub proof fn lemma_first_index(s: Seq<char>, c: char, i: int)
    requires
        0 <= i <= s.len(),
        forall|j: int| 0 <= j < i ==> #[trigger] s[j] != c,
        i < s.len() ==> s[i] == c,
    ensures
        first_index(s, c) == i,
    decreases s.len(),
{
    if i > 0 {
        assert(s[0] != c);
        let rest = s.drop_first();
        assert forall|j: int| 0 <= j < i - 1 implies #[trigger] rest[j] != c by {
            assert(rest[j] == s[j + 1]);
        }
        lemma_first_index(rest, c, i - 1);
    }
}

/// What `first_index` finds: no `c` comes before it, and it is a `c` or the end.
pub proof fn lemma_first_index_is(s: Seq<char>, c: char)
    ensures
        first_index(s, c) <= s.len(),
        forall|j: int| 0 <= j < first_index(s, c) ==> #[trigger] s[j] != c,
        first_index(s, c) < s.len() ==> s[first_index(s, c) as int] == c,
    decreases s.len(),
{
    if s.len() > 0 && s[0] != c {
        let rest = s.drop_first();
        lemma_first_index_is(rest, c);
        assert forall|j: int| 0 <= j < first_index(s, c) implies #[trigger] s[j] != c by {
            if j > 0 {
                assert(rest[j - 1] == s[j]);
            }
        }
    }
}

/// The place of the first `c` in `chars` at or after `from`, or the number of
/// characters where there is none.
pub fn find_from(chars: &[char], c: char, from: usize) -> (r: usize)
    requires
        from <= chars@.len(),
    ensures
        from <= r <= chars@.len(),
        r == from + first_index(chars@.skip(from as int), c),
{
    let ghost rest = chars@.skip(from as int);
    for i in from..chars.len()
        invariant
            from <= i,
            rest == chars@.skip(from as int),
            forall|j: int| 0 <= j < i - from ==> #[trigger] rest[j] != c,
    {
        assert(rest[i - from] == chars@[i as int]);
        if chars[i] == c {
            proof {
                lemma_first_index(rest, c, i - from);
            }
            return i;
        }
    }
    proof {
        lemma_first_index(rest, c, rest.len() as int);
    }
    chars.len()
}

/// `s` without the blanks (spaces and tabs) at its end.
pub open spec fn without_trailing_blanks(s: Seq<char>) -> Seq<char>
    decreases s.len(),
{
    if s.len() > 0 && (s.last() == ' ' || s.last() == '\t') {
        without_trailing_blanks(s.drop_last())
    } else {
        s
    }
}

/// Removes the spaces and tabs at the end of `out`.
pub fn trim_trailing_spaces(out: &mut String)
    ensures
        final(out)@ == without_trailing_blanks(old(out)@),
{
    loop
        invariant
            without_trailing_blanks(out@) == without_trailing_blanks(old(out)@),
        decreases out@.len(),
    {
        match out.pop() {
            None => {
                return ;
            },
            Some(c) => {
                if c != ' ' && c != '\t' {
                    out.push(c);
                    return ;
                }
            },
        }
    }
}

/// Every code point fits in a `u32`.
proof fn lemma_code_point(c: char)
    ensures
        (c as u32) as int == c as int,
{
}

/// The last byte of the UTF-8 form of a string tells its last character apart
/// where that is ASCII, and is no ASCII byte where it is not.
proof fn lemma_last_byte(s: Seq<char>)
    requires
        s.len() > 0,
    ensures
        utf8::encode_utf8(s).len() > 0,
        (s.last() as int) < 0x80 ==> utf8::encode_utf8(s).last() as int == s.last() as int,
        (s.last() as int) >= 0x80 ==> utf8::encode_utf8(s).last() >= 0x80,
    decreases s.len(),
{
    let c = s[0];
    let first = c as u32;
    lemma_code_point(c);
    let rest = s.drop_first();
    utf8::char_is_scalar(s[0]);
    if rest.len() == 0 {
        assert(utf8::encode_utf8(rest) =~= Seq::<u8>::empty());
        assert(utf8::encode_utf8(s) =~= utf8::encode_scalar(first));
        assert(first < 0x80 ==> (first & 0x7F) as u8 == first) by (bit_vector);
        assert(0x80u8 | (first & 0x3F) as u8 >= 0x80u8) by (bit_vector);
    } else {
        lemma_last_byte(rest);
        assert(utf8::encode_utf8(s).last() == utf8::encode_utf8(rest).last());
    }
}

/// True where `s` ends with the ASCII character `c`.
pub fn ends_with_ascii(s: &str, c: u8) -> (r: bool)
    requires
        c < 0x80,
    ensures
        r == (s@.len() > 0 && s@.last() as int == c as int),
{
    let bytes = s.as_bytes();
    proof {
        if s@.len() > 0 {
            lemma_last_byte(s@);
        } else {
            assert(utf8::encode_utf8(s@) =~= Seq::<u8>::empty());
        }
    }
    bytes.len() > 0 && bytes[bytes.len() - 1] == c
}

/// True where `s` ends with a space, a tab or a line feed.
pub fn ends_with_space_or_newline(s: &str) -> (r: bool)
    ensures
        r == (s@.len() > 0 && (s@.last() == ' ' || s@.last() == '\t' || s@.last() == '\n')),
{
    ends_with_ascii(s, ' ' as u8) || ends_with_ascii(s, '\t' as u8) || ends_with_ascii(s, '\n' as u8)
}

/// The contents of the strings in `v`.
pub open spec fn contents(v: Seq<String>) -> Seq<Seq<char>> {
    v.map_values(|s: String| s@)
}

/// The words of `s`.
pub fn split_words(s: &str) -> (r: Vec<String>)
    ensures
        contents(r@) == words(s@),
{
    let chars = chars_of(s);
    let mut r: Vec<String> = Vec::new();
    let mut in_word = false;
    for i in 0..chars.len()
        invariant
            chars@ == s@,
            contents(r@) == words(s@.take(i as int)),
            in_word == (i > 0 && !white_space(s@[i - 1])),
            in_word ==> r@.len() > 0,
    {
        let c = chars[i];
        let ghost before = r@;
        proof {
            assert(s@.take(i + 1).drop_last() =~= s@.take(i as int));
        }
        if c.is_whitespace() {
            in_word = false;
        } else if in_word {
            match r.pop() {
                Some(word) => {
                    let mut longer = word;
                    longer.push(c);
                    r.push(longer);
                },
                None => {},
            }
            assert(contents(r@) =~= contents(before).drop_last().push(contents(before).last().push(c)));
        } else {
            let mut word = String::new();
            word.push(c);
            r.push(word);
            in_word = true;
            assert(word@ =~= seq![c]);
            assert(contents(r@) =~= contents(before).push(seq![c]));
        }
    }
    assert(s@.take(s@.len() as int) =~= s@);
    r
}

/// The parts, one after the other, with `sep` between each two.
pub open spec fn joined(parts: Seq<Seq<char>>, sep: Seq<char>) -> Seq<char>
    decreases parts.len(),
{
    if parts.len() == 0 {
        Seq::empty()
    } else if parts.len() == 1 {
        parts[0]
    } else {
        joined(parts.drop_last(), sep) + sep + parts.last()
    }
}

/// Joins `parts` with `sep` between each two.
pub fn join(parts: &[String], sep: &str) -> (r: String)
    ensures
        r@ == joined(contents(parts@), sep@),
{
    let mut r = String::new();
    for i in 0..parts.len()
        invariant
            r@ == joined(contents(parts@).take(i as int), sep@),
    {
        proof {
            let next = contents(parts@).take(i + 1);
            assert(next.drop_last() =~= contents(parts@).take(i as int));
            assert(next.last() == parts@[i as int]@);
        }
        if i > 0 {
            r.append(sep);
        }
        r.append(parts[i].as_str());
    }
    assert(contents(parts@).take(parts@.len() as int) =~= contents(parts@));
    r
}

/// `s` with each run of white space made one space, and none at its ends.
pub open spec fn normalized(s: Seq<char>) -> Seq<char> {
    joined(words(s), seq![' '])
}

/// Collapses the white space of `s`.
pub fn normalize(s: &str) -> (r: String)
    ensures
        r@ == normalized(s@),
{
    proof {
        reveal_strlit(" ");
        assert(" "@ =~= seq![' ']);
    }
    let parts = split_words(s);
    join(parts.as_slice(), " ")
}

/// A word behind white space, or at the start, is a word of its own.
proof fn lemma_words_of_appended(s: Seq<char>, w: Seq<char>)
    requires
        w.len() > 0,
        forall|i: int| 0 <= i < w.len() ==> !white_space(#[trigger] w[i]),
        s.len() == 0 || white_space(s.last()),
    ensures
        words(s + w) == words(s).push(w),
    decreases w.len(),
{
    let all = s + w;
    let shorter = w.drop_last();
    assert(all.drop_last() =~= s + shorter);
    assert(all.last() == w[w.len() - 1]);
    if shorter.len() == 0 {
        assert(s + shorter =~= s);
        assert(w =~= seq![w.last()]);
        if s.len() > 0 {
            assert(all[all.len() - 2] == s.last());
        }
    } else {
        assert forall|i: int| 0 <= i < shorter.len() implies !white_space(#[trigger] shorter[i]) by {
            assert(shorter[i] == w[i]);
        }
        lemma_words_of_appended(s, shorter);
        assert(all[all.len() - 2] == w[w.len() - 2]);
        assert(words(s + shorter).drop_last() =~= words(s));
        assert(shorter.push(w.last()) =~= w);
    }
}

/// Words joined by single spaces are read back as those words.
proof fn lemma_words_of_joined(list: Seq<Seq<char>>)
    requires
        list.len() > 0 ==> proper_words(list),
    ensures
        words(joined(list, seq![' '])) == list,
    decreases list.len(),
{
    if list.len() > 0 {
        let before = list.drop_last();
        let w = list.last();
        assert(w == list[list.len() - 1]);
        if before.len() == 0 {
            let none = Seq::<char>::empty();
            lemma_words_of_appended(none, w);
            assert(none + w =~= w);
            assert(words(none).push(w) =~= list);
        } else {
            assert(proper_words(before)) by {
                assert forall|k: int| 0 <= k < before.len() implies {
                    &&& (#[trigger] before[k]).len() > 0
                    &&& forall|i: int|
                        0 <= i < before[k].len() ==> !white_space(#[trigger] before[k][i])
                } by {
                    assert(before[k] == list[k]);
                }
            }
            lemma_words_of_joined(before);
            let head = joined(before, seq![' ']) + seq![' '];
            assert(head.drop_last() =~= joined(before, seq![' ']));
            lemma_words_of_appended(head, w);
            assert(before.push(w) =~= list);
        }
    } else {
        assert(list =~= Seq::empty());
    }
}

/// Collapsing white space keeps the words of a text: none is lost, joined, split
/// or changed.
pub proof fn law_normalizing_keeps_words(s: Seq<char>)
    ensures
        words(normalized(s)) == words(s),
{
    lemma_words_are_proper(s);
    lemma_words_of_joined(words(s));
}

/// Collapsing white space a second time changes nothing.
pub proof fn law_normalizing_twice(s: Seq<char>)
    ensures
        normalized(normalized(s)) == normalized(s),
{
    law_normalizing_keeps_words(s);
}

/// The characters of a text whose white space is collapsed are spaces and
/// characters of the text.
pub proof fn lemma_normalized_is_made_of(s: Seq<char>)
    ensures
        forall|i: int|
            0 <= i < normalized(s).len() ==> (#[trigger] normalized(s)[i] == ' ' || s.contains(
                normalized(s)[i],
            )),
{
    lemma_words_are_made_of(s);
    lemma_joined_is_made_of(words(s), s);
}

proof fn lemma_joined_is_made_of(list: Seq<Seq<char>>, s: Seq<char>)
    requires
        forall|k: int, i: int|
            0 <= k < list.len() && 0 <= i < list[k].len() ==> s.contains(#[trigger] list[k][i]),
    ensures
        forall|i: int|
            0 <= i < joined(list, seq![' ']).len() ==> (#[trigger] joined(list, seq![' '])[i] == ' '
                || s.contains(joined(list, seq![' '])[i])),
    decreases list.len(),
{
    let all = joined(list, seq![' ']);
    if list.len() == 1 {
        assert forall|i: int| 0 <= i < all.len() implies (#[trigger] all[i] == ' ' || s.contains(
            all[i],
        )) by {
            assert(all[i] == list[0][i]);
        }
    } else if list.len() > 1 {
        let before = list.drop_last();
        assert forall|k: int, i: int|
            0 <= k < before.len() && 0 <= i < before[k].len() implies s.contains(
            #[trigger] before[k][i],
        ) by {
            assert(before[k][i] == list[k][i]);
        }
        lemma_joined_is_made_of(before, s);
        let head = joined(before, seq![' ']);
        let m = list.len() - 1;
        assert forall|i: int| 0 <= i < all.len() implies (#[trigger] all[i] == ' ' || s.contains(
            all[i],
        )) by {
            if i < head.len() {
                assert(all[i] == head[i]);
            } else if i > head.len() {
                assert(all[i] == list[m][i - head.len() - 1]);
            }
        }
    }
}

/// True where `s` does not start with white space, nor end with a space or a tab.
pub open spec fn clean_edges(s: Seq<char>) -> bool {
    s.len() > 0 ==> !white_space(s[0]) && s.last() != ' ' && s.last() != '\t'
}

/// A text whose white space is collapsed has clean edges.
pub proof fn lemma_normalized_edges(s: Seq<char>)
    ensures
        clean_edges(normalized(s)),
{
    lemma_words_are_proper(s);
    if words(s).len() > 0 {
        lemma_joined_edges(words(s));
    }
}

proof fn lemma_joined_edges(list: Seq<Seq<char>>)
    requires
        proper_words(list),
    ensures
        joined(list, seq![' ']).len() > 0,
        !white_space(joined(list, seq![' '])[0]),
        !white_space(joined(list, seq![' ']).last()),
    decreases list.len(),
{
    let w = list[list.len() - 1];
    assert(w.len() > 0);
    assert(!white_space(w[0]) && !white_space(w[w.len() - 1]));
    if list.len() > 1 {
        let before = list.drop_last();
        assert(proper_words(before)) by {
            assert forall|k: int| 0 <= k < before.len() implies {
                &&& (#[trigger] before[k]).len() > 0
                &&& forall|i: int|
                    0 <= i < before[k].len() ==> !white_space(#[trigger] before[k][i])
            } by {
                assert(before[k] == list[k]);
            }
        }
        lemma_joined_edges(before);
    }
}

/// What `char::is_alphabetic` answers: the Unicode property `Alphabetic`.
pub uninterp spec fn alphabetic(c: char) -> bool;

/// What `char::to_uppercase` yields: the Unicode uppercase mapping of the
/// character.
pub uninterp spec fn uppercase(c: char) -> Seq<char>;

/// `char::is_alphabetic`: its answer, named `alphabetic`, rests on the character
/// alone.
pub assume_specification[ char::is_alphabetic ](c: char) -> (r: bool)
    ensures
        r == alphabetic(c),
;

/// Calls `char::to_uppercase` and collects what it yields. The mapping is named
/// `uppercase`; it is never empty. It is the one of `UnicodeData.txt` and
/// `SpecialCasing.txt`, and of those tables three facts are claimed: white space
/// and private-use characters occur in no mapping but their own, where each stands
/// for itself; the mapping of a letter starts with a letter; and that one is in
/// upper case already.
#[verifier::external_body]
fn char_to_uppercase(c: char) -> (r: String)
    ensures
        r@ == uppercase(c),
        r@.len() > 0,
        forall|i: int|
            0 <= i < r@.len() && (white_space(#[trigger] r@[i]) || private_use(r@[i])) ==> r@
                == seq![c],
        alphabetic(c) ==> alphabetic(r@[0]) && uppercase(r@[0]) == seq![r@[0]],
{
    c.to_uppercase().collect()
}

/// The place of the first letter of `s`, or the length of `s` where it has none.
pub open spec fn first_letter(s: Seq<char>) -> int
    decreases s.len(),
{
    if s.len() == 0 || alphabetic(s[0]) {
        0
    } else {
        1 + first_letter(s.drop_first())
    }
}

/// True where a letter occurs in `s`.
pub open spec fn has_letter(s: Seq<char>) -> bool {
    first_letter(s) < s.len()
}

/// `first_letter` is the one place that has no letter before it and is either a
/// letter or the end.
pub proof fn lemma_first_letter(s: Seq<char>, i: int)
    requires
        0 <= i <= s.len(),
        forall|j: int| 0 <= j < i ==> !alphabetic(#[trigger] s[j]),
        i < s.len() ==> alphabetic(s[i]),
    ensures
        first_letter(s) == i,
    decreases s.len(),
{
    if i > 0 {
        assert(!alphabetic(s[0]));
        let rest = s.drop_first();
        assert forall|j: int| 0 <= j < i - 1 implies !alphabetic(#[trigger] rest[j]) by {
            assert(rest[j] == s[j + 1]);
        }
        lemma_first_letter(rest, i - 1);
    }
}

/// `s` with the character at `i` replaced by the characters of `with`.
pub open spec fn replaced_at(s: Seq<char>, i: int, with: Seq<char>) -> Seq<char> {
    s.take(i) + with + s.skip(i + 1)
}

/// `s` with its first letter in upper case, or `s` itself where it has none.
pub open spec fn capitalized(s: Seq<char>) -> Seq<char> {
    if has_letter(s) {
        replaced_at(s, first_letter(s), uppercase(s[first_letter(s)]))
    } else {
        s
    }
}

/// The place of the first letter, where there is one.
pub fn find_letter(s: &str) -> (r: Option<usize>)
    ensures
        match r {
            Some(i) => has_letter(s@) && i as int == first_letter(s@),
            None => !has_letter(s@),
        },
{
    let chars = chars_of(s);
    for i in 0..chars.len()
        invariant
            chars@ == s@,
            forall|j: int| 0 <= j < i ==> !alphabetic(#[trigger] s@[j]),
    {
        if chars[i].is_alphabetic() {
            proof {
                lemma_first_letter(s@, i as int);
            }
            return Some(i);
        }
    }
    proof {
        lemma_first_letter(s@, s@.len() as int);
    }
    None
}

/// Replaces the character at `i` by `with`.
pub fn replace_char_at(s: &str, i: usize, with: &str) -> (r: String)
    requires
        i < s@.len(),
    ensures
        r@ == replaced_at(s@, i as int, with@),
{
    let chars = chars_of(s);
    let mut r = String::new();
    for k in 0..chars.len()
        invariant
            chars@ == s@,
            i < s@.len(),
            k <= i ==> r@ == s@.take(k as int),
            k > i ==> r@ == s@.take(i as int) + with@ + s@.subrange(i + 1, k as int),
    {
        if k == i {
            r.append(with);
            assert(s@.subrange(i + 1, k + 1) =~= Seq::<char>::empty());
        } else {
            r.push(chars[k]);
            if k < i {
                assert(s@.take(k + 1) =~= s@.take(k as int).push(s@[k as int]));
            } else {
                assert(s@.subrange(i + 1, k + 1) =~= s@.subrange(i + 1, k as int).push(s@[k as int]));
            }
        }
    }
    assert(s@.skip(i + 1) =~= s@.subrange(i + 1, s@.len() as int));
    r
}

/// What `first_letter` finds: no letter comes before it, and it is a letter or the
/// end.
pub proof fn lemma_first_letter_is(s: Seq<char>)
    ensures
        0 <= first_letter(s) <= s.len(),
        forall|j: int| 0 <= j < first_letter(s) ==> !alphabetic(#[trigger] s[j]),
        first_letter(s) < s.len() ==> alphabetic(s[first_letter(s)]),
    decreases s.len(),
{
    if s.len() > 0 && !alphabetic(s[0]) {
        let rest = s.drop_first();
        lemma_first_letter_is(rest);
        assert forall|j: int| 0 <= j < first_letter(s) implies !alphabetic(#[trigger] s[j]) by {
            if j > 0 {
                assert(rest[j - 1] == s[j]);
            }
        }
    }
}

/// Putting the first letter in upper case leaves it where it is, does so once and
/// for all, keeps clean edges clean, and brings in no private-use character.
proof fn lemma_capitalized(s: Seq<char>, i: int, upper: Seq<char>)
    requires
        has_letter(s),
        i == first_letter(s),
        upper == uppercase(s[i]),
        upper.len() > 0,
        forall|k: int|
            0 <= k < upper.len() && (white_space(#[trigger] upper[k]) || private_use(upper[k]))
                ==> upper == seq![s[i]],
        alphabetic(upper[0]),
        uppercase(upper[0]) == seq![upper[0]],
    ensures
        capitalized(capitalized(s)) == capitalized(s),
        clean_edges(s) ==> clean_edges(capitalized(s)),
        forall|m: char|
            private_use(m) && #[trigger] capitalized(s).contains(m) ==> s.contains(m),
{
    lemma_first_letter_is(s);
    let r = capitalized(s);
    assert forall|j: int| 0 <= j < i implies !alphabetic(#[trigger] r[j]) by {
        assert(r[j] == s[j]);
    }
    assert(r[i] == upper[0]);
    lemma_first_letter(r, i);
    assert(replaced_at(r, i, seq![upper[0]]) =~= r);
    if clean_edges(s) {
        if i == 0 && white_space(upper[0]) {
            assert(r[0] == s[0]);
        }
        if i == s.len() - 1 {
            assert(r.last() == upper[upper.len() - 1]);
            if white_space(upper[upper.len() - 1]) {
                assert(r.last() == s.last());
            }
        } else {
            assert(r.last() == s.last());
        }
    }
    assert forall|m: char| private_use(m) && #[trigger] r.contains(m) implies s.contains(m) by {
        let k = choose|k: int| 0 <= k < r.len() && r[k] == m;
        if k < i {
            assert(s[k] == m);
        } else if k < i + upper.len() {
            assert(upper[k - i] == m);
            assert(s[i] == m);
        } else {
            assert(s[k - upper.len() + 1] == m);
        }
    }
}

/// Puts the first letter of `s` in upper case. Doing so a second time changes
/// nothing. Clean edges stay clean, and no private-use character comes in.
pub fn capitalize_first(s: &str) -> (r: String)
    ensures
        r@ == capitalized(s@),
        capitalized(r@) == r@,
        clean_edges(s@) ==> clean_edges(r@),
        forall|m: char| private_use(m) && #[trigger] r@.contains(m) ==> s@.contains(m),
{
    match find_letter(s) {
        Some(i) => {
            let upper = char_to_uppercase(s.get_char(i));
            proof {
                lemma_first_letter_is(s@);
                lemma_capitalized(s@, i as int, upper@);
            }
            replace_char_at(s, i, upper.as_str())
        },
        None => s.to_owned(),
    }
}

/// True where `needle` occurs in `s` as a contiguous part.
pub open spec fn occurs_in(needle: Seq<char>, s: Seq<char>) -> bool {
    exists|i: int|
        0 <= i <= s.len() - needle.len() && #[trigger] s.subrange(i, i + needle.len()) == needle
}

/// True where `needle` stands in `chars` at `start`.
fn stands_at(chars: &[char], needle: &[char], start: usize) -> (r: bool)
    requires
        start + needle@.len() <= chars@.len(),
    ensures
        r == (chars@.subrange(start as int, start + needle@.len()) == needle@),
{
    let n = chars.len();
    for k in 0..needle.len()
        invariant
            start + needle@.len() <= chars@.len() == n,
            forall|j: int| 0 <= j < k ==> chars@[start + j] == #[trigger] needle@[j],
    {
        if chars[start + k] != needle[k] {
            assert(chars@.subrange(start as int, start + needle@.len())[k as int] != needle@[k as int]);
            return false;
        }
    }
    assert(chars@.subrange(start as int, start + needle@.len()) =~= needle@);
    true
}

/// True where `needle` occurs in `s`.
pub fn contains(s: &str, needle: &str) -> (r: bool)
    ensures
        r == occurs_in(needle@, s@),
{
    let chars = chars_of(s);
    let part = chars_of(needle);
    if part.len() > chars.len() {
        return false;
    }
    let last: usize = chars.len() - part.len();
    let mut i: usize = 0;
    loop
        invariant
            chars@ == s@,
            part@ == needle@,
            part@.len() + last == chars@.len(),
            i <= last,
            forall|j: int|
                0 <= j < i ==> #[trigger] s@.subrange(j, j + needle@.len()) != needle@,
        decreases last - i,
    {
        if stands_at(chars.as_slice(), part.as_slice(), i) {
            return true;
        }
        if i == last {
            return false;
        }
        i = i + 1;
    }
}

/// `s` without the white space that it starts with.
pub open spec fn without_leading_space(s: Seq<char>) -> Seq<char>
    decreases s.len(),
{
    if s.len() > 0 && white_space(s[0]) {
        without_leading_space(s.drop_first())
    } else {
        s
    }
}

/// `s` without the white space that it starts with and the blanks that it ends
/// with.
pub open spec fn trimmed(s: Seq<char>) -> Seq<char> {
    without_trailing_blanks(without_leading_space(s))
}

/// Removes leading white space and trailing blanks.
pub fn trim(s: &str) -> (r: String)
    ensures
        r@ == trimmed(s@),
{
    let chars = chars_of(s);
    let mut r = String::new();
    let mut started = false;
    assert(s@.skip(0) =~= s@);
    for i in 0..chars.len()
        invariant
            chars@ == s@,
            !started ==> r@.len() == 0 && without_leading_space(s@) == without_leading_space(
                s@.skip(i as int),
            ),
            started ==> without_leading_space(s@) == r@ + s@.skip(i as int),
    {
        let c = chars[i];
        assert(s@.skip(i as int)[0] == c);
        assert(s@.skip(i as int).drop_first() =~= s@.skip(i + 1));
        if started || !c.is_whitespace() {
            let ghost before = r@;
            started = true;
            r.push(c);
            assert(before + s@.skip(i as int) =~= r@ + s@.skip(i + 1));
            assert(before.len() == 0 ==> before + s@.skip(i as int) =~= s@.skip(i as int));
        }
    }
    assert(s@.skip(s@.len() as int) =~= Seq::<char>::empty());
    assert(r@ + Seq::<char>::empty() =~= r@);
    trim_trailing_spaces(&mut r);
    r
}

/// Trimmed text does not start with white space, nor end with a space or a tab.
pub proof fn law_trimmed_edges(s: Seq<char>)
    ensures
        clean_edges(trimmed(s)),
{
    lemma_no_leading_space(s);
    lemma_no_trailing_blanks(without_leading_space(s));
}

/// Trimming leaves a text with clean edges as it is.
pub proof fn law_clean_text_is_kept(s: Seq<char>)
    requires
        clean_edges(s),
    ensures
        trimmed(s) == s,
{
}

/// The characters of trimmed text are characters of the text.
pub proof fn lemma_trimmed_is_made_of(s: Seq<char>)
    ensures
        forall|i: int| 0 <= i < trimmed(s).len() ==> s.contains(#[trigger] trimmed(s)[i]),
{
    let solid = without_leading_space(s);
    lemma_leading_space_is_cut(s);
    lemma_no_trailing_blanks(solid);
    assert forall|i: int| 0 <= i < trimmed(s).len() implies s.contains(
        #[trigger] trimmed(s)[i],
    ) by {
        assert(trimmed(s)[i] == solid[i]);
        assert(s.contains(solid[i]));
    }
}

proof fn lemma_leading_space_is_cut(s: Seq<char>)
    ensures
        forall|i: int|
            0 <= i < without_leading_space(s).len() ==> s.contains(
                #[trigger] without_leading_space(s)[i],
            ),
    decreases s.len(),
{
    if s.len() > 0 && white_space(s[0]) {
        let rest = s.drop_first();
        lemma_leading_space_is_cut(rest);
        assert forall|i: int| 0 <= i < without_leading_space(s).len() implies s.contains(
            #[trigger] without_leading_space(s)[i],
        ) by {
            let c = without_leading_space(rest)[i];
            assert(rest.contains(c));
            let j = choose|j: int| 0 <= j < rest.len() && rest[j] == c;
            assert(s[j + 1] == c);
        }
    }
}

proof fn lemma_no_leading_space(s: Seq<char>)
    ensures
        without_leading_space(s).len() > 0 ==> !white_space(without_leading_space(s)[0]),
    decreases s.len(),
{
    if s.len() > 0 && white_space(s[0]) {
        lemma_no_leading_space(s.drop_first());
    }
}

/// Cutting trailing blanks cuts a string short, and down to a last character that
/// is none.
pub proof fn lemma_no_trailing_blanks(s: Seq<char>)
    ensures
        without_trailing_blanks(s).len() <= s.len(),
        without_trailing_blanks(s) == s.take(without_trailing_blanks(s).len() as int),
        without_trailing_blanks(s).len() > 0 ==> without_trailing_blanks(s).last() != ' '
            && without_trailing_blanks(s).last() != '\t',
    decreases s.len(),
{
    if s.len() > 0 && (s.last() == ' ' || s.last() == '\t') {
        let shorter = s.drop_last();
        lemma_no_trailing_blanks(shorter);
        let n = without_trailing_blanks(shorter).len() as int;
        assert(shorter.take(n) =~= s.take(n));
    } else {
        assert(s.take(s.len() as int) =~= s);
    }
}

/// Text without white space is one word.
pub proof fn law_one_word(w: Seq<char>)
    requires
        w.len() > 0,
        forall|i: int| 0 <= i < w.len() ==> !white_space(#[trigger] w[i]),
    ensures
        words(w) == seq![w],
        normalized(w) == w,
{
    let none = Seq::<char>::empty();
    lemma_words_of_appended(none, w);
    assert(none + w =~= w);
    assert(words(none).push(w) =~= seq![w]);
}

/// White space parts the words of a text: those before it come first, those behind
/// it next, and nothing else is a word.
pub proof fn law_white_space_parts_words(a: Seq<char>, c: char, b: Seq<char>)
    requires
        white_space(c),
    ensures
        words(a + seq![c] + b) == words(a) + words(b),
        words(Seq::<char>::empty()).len() == 0,
    decreases b.len(),
{
    let all = a + seq![c] + b;
    if b.len() == 0 {
        assert(all.drop_last() =~= a);
        assert(words(a) + words(b) =~= words(a));
    } else {
        let less = b.drop_last();
        law_white_space_parts_words(a, c, less);
        assert(all.drop_last() =~= a + seq![c] + less);
        assert(all.last() == b.last());
        let before = words(a) + words(less);
        if b.len() > 1 {
            assert(all[all.len() - 2] == b[b.len() - 2]);
        } else {
            assert(all[all.len() - 2] == c);
        }
        if !white_space(b.last()) {
            if b.len() > 1 && !white_space(b[b.len() - 2]) {
                lemma_blank_has_no_words(less);
                assert(!white_space(less[less.len() - 1]));
                assert(before.drop_last().push(before.last().push(b.last())) =~= words(a)
                    + words(less).drop_last().push(words(less).last().push(b.last())));
            } else {
                assert(before.push(seq![b.last()]) =~= words(a) + words(less).push(
                    seq![b.last()],
                ));
            }
        }
    }
}

/// Joining two lists one after the other puts the separator between what each of
/// them joins to; one part joins to itself, and none to nothing.
pub proof fn law_joining_in_turn(x: Seq<Seq<char>>, y: Seq<Seq<char>>, sep: Seq<char>)
    requires
        x.len() > 0,
        y.len() > 0,
    ensures
        joined(x + y, sep) == joined(x, sep) + sep + joined(y, sep),
        joined(seq![x[0]], sep) == x[0],
        joined(Seq::<Seq<char>>::empty(), sep).len() == 0,
    decreases y.len(),
{
    let all = x + y;
    assert(all.last() == y.last());
    if y.len() == 1 {
        assert(all.drop_last() =~= x);
    } else {
        let less = y.drop_last();
        law_joining_in_turn(x, less, sep);
        assert(all.drop_last() =~= x + less);
        assert(joined(all, sep) =~= joined(x, sep) + sep + joined(y, sep));
    }
}

/// What becomes of white space: between words it is one space, whatever and however
/// much it was, and beside blank text nothing.
pub proof fn law_white_space_collapses(a: Seq<char>, c: char, b: Seq<char>)
    requires
        white_space(c),
    ensures
        (exists|i: int| 0 <= i < a.len() && !white_space(#[trigger] a[i])) && (exists|j: int|
            0 <= j < b.len() && !white_space(#[trigger] b[j])) ==> normalized(a + seq![c] + b)
            == normalized(a) + seq![' '] + normalized(b),
        (forall|j: int| 0 <= j < b.len() ==> white_space(#[trigger] b[j])) ==> normalized(
            a + seq![c] + b,
        ) == normalized(a),
        (forall|i: int| 0 <= i < a.len() ==> white_space(#[trigger] a[i])) ==> normalized(
            a + seq![c] + b,
        ) == normalized(b),
        (forall|i: int| 0 <= i < a.len() ==> white_space(#[trigger] a[i])) ==> normalized(a).len()
            == 0,
{
    law_white_space_parts_words(a, c, b);
    lemma_blank_has_no_words(a);
    lemma_blank_has_no_words(b);
    if words(a).len() > 0 && words(b).len() > 0 {
        law_joining_in_turn(words(a), words(b), seq![' ']);
    }
    if words(b).len() == 0 {
        assert(words(a) + words(b) =~= words(a));
    }
    if words(a).len() == 0 {
        assert(words(a) + words(b) =~= words(b));
    }
}

/// Nothing but the first letter changes: it makes way for its upper case form,
/// every character before it stays where it is, and every character behind it
/// stays, as far behind that form as it was behind the letter.
pub proof fn law_only_the_first_letter_changes(s: Seq<char>, i: int)
    requires
        0 <= i < s.len(),
        alphabetic(s[i]),
        forall|j: int| 0 <= j < i ==> !alphabetic(#[trigger] s[j]),
    ensures
        capitalized(s).len() == s.len() - 1 + uppercase(s[i]).len(),
        forall|j: int| 0 <= j < i ==> #[trigger] capitalized(s)[j] == s[j],
        forall|j: int|
            0 <= j < uppercase(s[i]).len() ==> capitalized(s)[i + j] == #[trigger] uppercase(
                s[i],
            )[j],
        forall|j: int|
            i < j < s.len() ==> capitalized(s)[j - 1 + uppercase(s[i]).len()] == #[trigger] s[j],
        capitalized(s) == s.take(i) + uppercase(s[i]) + s.skip(i + 1),
{
    lemma_first_letter(s, i);
}

/// Text without letters stays as it is.
pub proof fn law_no_letter_no_change(s: Seq<char>)
    requires
        forall|j: int| 0 <= j < s.len() ==> !alphabetic(#[trigger] s[j]),
    ensures
        capitalized(s) == s,
{
    lemma_first_letter(s, s.len() as int);
}

/// What is cut from the end: all the spaces and tabs there, and nothing else.
pub proof fn law_blanks_are_cut(s: Seq<char>, n: int)
    requires
        0 <= n <= s.len(),
        forall|i: int| n <= i < s.len() ==> (#[trigger] s[i] == ' ' || s[i] == '\t'),
        n > 0 ==> s[n - 1] != ' ' && s[n - 1] != '\t',
    ensures
        without_trailing_blanks(s) == s.take(n),
    decreases s.len(),
{
    if n == s.len() {
        assert(s.take(n) =~= s);
    } else {
        let shorter = s.drop_last();
        assert(s[s.len() - 1] == ' ' || s[s.len() - 1] == '\t');
        assert forall|i: int| n <= i < shorter.len() implies (#[trigger] shorter[i] == ' '
            || shorter[i] == '\t') by {
            assert(shorter[i] == s[i]);
        }
        law_blanks_are_cut(shorter, n);
        assert(shorter.take(n) =~= s.take(n));
    }
}

/// What is trimmed: all the white space at the start, all the spaces and tabs at the
/// end, and nothing between.
pub proof fn law_what_is_trimmed(s: Seq<char>, from: int, to: int)
    requires
        0 <= from <= to <= s.len(),
        forall|i: int| 0 <= i < from ==> white_space(#[trigger] s[i]),
        forall|i: int| to <= i < s.len() ==> (#[trigger] s[i] == ' ' || s[i] == '\t'),
        from < to ==> !white_space(s[from]) && s[to - 1] != ' ' && s[to - 1] != '\t',
    ensures
        trimmed(s) == s.subrange(from, to),
    decreases s.len(),
{
    if s.len() == 0 {
        assert(s.subrange(from, to) =~= s);
    } else if white_space(s[0]) {
        let rest = s.drop_first();
        let start = if from > 0 {
            from - 1
        } else {
            0
        };
        let end = if to > 0 {
            to - 1
        } else {
            0
        };
        assert forall|i: int| 0 <= i < start implies white_space(#[trigger] rest[i]) by {
            assert(rest[i] == s[i + 1]);
        }
        assert forall|i: int| end <= i < rest.len() implies (#[trigger] rest[i] == ' ' || rest[i]
            == '\t') by {
            assert(rest[i] == s[i + 1]);
        }
        if start < end {
            assert(rest[start] == s[from]);
            assert(rest[end - 1] == s[to - 1]);
        }
        law_what_is_trimmed(rest, start, end);
        assert(rest.subrange(start, end) =~= s.subrange(from, to));
    } else {
        assert(from == 0);
        law_blanks_are_cut(s, to);
        assert(s.take(to) =~= s.subrange(from, to));
    }
}

/// What occurs in a text stands somewhere in it as it is, with something before it
/// and something behind it, and whatever stands so occurs.
pub proof fn law_what_occurs(needle: Seq<char>, a: Seq<char>, b: Seq<char>, s: Seq<char>)
    ensures
        occurs_in(needle, a + needle + b),
        (forall|i: int|
            0 <= i <= s.len() - needle.len() ==> #[trigger] s.subrange(i, i + needle.len())
                != needle) ==> !occurs_in(needle, s),
{
    let all = a + needle + b;
    let i = a.len() as int;
    assert(all.subrange(i, i + needle.len()) =~= needle);
}

/// White space and nothing else is blank.
pub proof fn law_blank_in_parts(a: Seq<char>, c: char, b: Seq<char>)
    ensures
        blank(Seq::<char>::empty()),
        blank(a + seq![c] + b) <==> blank(a) && white_space(c) && blank(b),
{
    let all = a + seq![c] + b;
    if blank(all) {
        assert(white_space(all[a.len() as int]));
        assert forall|i: int| 0 <= i < a.len() implies white_space(#[trigger] a[i]) by {
            assert(a[i] == all[i]);
        }
        assert forall|i: int| 0 <= i < b.len() implies white_space(#[trigger] b[i]) by {
            assert(b[i] == all[a.len() + 1 + i]);
        }
    }
}

/// There is a letter in a text where one of its characters is one.
pub proof fn law_where_letters_are(s: Seq<char>)
    ensures
        has_letter(s) <==> exists|i: int| 0 <= i < s.len() && alphabetic(#[trigger] s[i]),
{
    lemma_first_letter_is(s);
    if forall|i: int| 0 <= i < s.len() ==> !alphabetic(#[trigger] s[i]) {
        lemma_first_letter(s, s.len() as int);
    }
}

/// Replacing a character: those before it stay where they are, then comes what
/// replaces it, then those behind it.
pub proof fn law_one_character_is_replaced(a: Seq<char>, c: char, b: Seq<char>, with: Seq<char>)
    ensures
        replaced_at(a + seq![c] + b, a.len() as int, with) == a + with + b,
{
    let all = a + seq![c] + b;
    let i = a.len() as int;
    assert(all.take(i) =~= a);
    assert(all.skip(i + 1) =~= b);
}

/// The contents of a list of strings are those of its strings, in its order.
pub proof fn law_contents_of_a_list(v: Seq<String>, k: int)
    requires
        0 <= k < v.len(),
    ensures
        contents(v).len() == v.len(),
        contents(v)[k] == v[k]@,
{
}

} // verus!
