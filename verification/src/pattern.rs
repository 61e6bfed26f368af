//! Finding spoken phrases in a transcript and marking them.
use crate::kind;
use crate::kind::Kind;
use crate::settings::{CommandModel, SpokenCommand};
use crate::text;
use vstd::prelude::*;

verus! {

/// Opens a marked command. It is a private-use character that no transcript
/// holds.
pub const MARK_START: char = '\u{E000}';

/// Closes a marked command.
pub const MARK_END: char = '\u{E001}';

/// The characters that mean something else than themselves in a regular
/// expression.
pub open spec fn is_meta(c: char) -> bool {
    ||| c == '\\' || c == '.' || c == '+' || c == '*' || c == '?' || c == '('
    ||| c == ')' || c == '|' || c == '[' || c == ']' || c == '{' || c == '}'
    ||| c == '^' || c == '$' || c == '#' || c == '&' || c == '-' || c == '~'
}

/// `s` with a backslash before each meta character.
pub open spec fn escaped(s: Seq<char>) -> Seq<char>
    decreases s.len(),
{
    if s.len() == 0 {
        Seq::empty()
    } else if is_meta(s.last()) {
        escaped(s.drop_last()).push('\\').push(s.last())
    } else {
        escaped(s.drop_last()).push(s.last())
    }
}

/// `regex::escape`: puts a backslash before each meta character and leaves every
/// other character as it is.
pub assume_specification[ regex::escape ](literal: &str) -> (r: String)
    ensures
        r@ == escaped(literal@),
;

/// The regular expression that finds the words as a whole, with any white space
/// between them.
pub open spec fn whole_word_pattern(words: Seq<Seq<char>>) -> Seq<char> {
    seq!['\\', 'b'] + text::joined(
        words.map_values(|w: Seq<char>| escaped(w)),
        seq!['\\', 's', '+'],
    ) + seq!['\\', 'b']
}

/// The regular expression for a phrase, or `None` where the phrase has no words.
pub fn phrase_regex(phrase: &str) -> (r: Option<String>)
    ensures
        match r {
            Some(pattern) => text::words(phrase@).len() > 0 && pattern@ == whole_word_pattern(
                text::words(phrase@),
            ),
            None => text::words(phrase@).len() == 0,
        },
{
    let parts = text::split_words(phrase);
    let ghost words = text::words(phrase@);
    assert(words.len() == parts@.len());
    if parts.len() == 0 {
        return None;
    }
    let mut literals: Vec<String> = Vec::new();
    for i in 0..parts.len()
        invariant
            text::contents(parts@) == words,
            literals@.len() == i,
            forall|k: int| 0 <= k < i ==> (#[trigger] literals@[k])@ == escaped(words[k]),
    {
        let literal = regex::escape(parts[i].as_str());
        proof {
            assert(parts@[i as int]@ == text::contents(parts@)[i as int]);
        }
        literals.push(literal);
    }
    assert(text::contents(literals@) =~= words.map_values(|w: Seq<char>| escaped(w)));
    proof {
        reveal_strlit("\\b");
        reveal_strlit("\\s+");
        assert("\\b"@ =~= seq!['\\', 'b']);
        assert("\\s+"@ =~= seq!['\\', 's', '+']);
    }
    let mut pattern = "\\b".to_owned();
    let body = text::join(literals.as_slice(), "\\s+");
    pattern.append(body.as_str());
    pattern.append("\\b");
    Some(pattern)
}

/// What the tables of the regex crate say of `\w` beyond ASCII: the Unicode word
/// characters.
pub uninterp spec fn unicode_word_char(c: char) -> bool;

/// What the tables of the regex crate say of Unicode simple case folding: whether
/// two different characters, one of them at least beyond ASCII, match each other
/// where case is ignored.
pub uninterp spec fn unicode_same_letter(a: char, b: char) -> bool;

/// True of an ASCII character.
pub open spec fn is_ascii(c: char) -> bool {
    c <= '\u{7f}'
}

/// True of the characters that words are made of: letters, digits, the
/// underscore and the Unicode word characters.
pub open spec fn word_char(c: char) -> bool {
    if is_ascii(c) {
        'a' <= c <= 'z' || 'A' <= c <= 'Z' || '0' <= c <= '9' || c == '_'
    } else {
        unicode_word_char(c)
    }
}

/// The lower case form of an ASCII letter, and any other character itself.
pub open spec fn ascii_lower(c: char) -> int {
    if 'A' <= c <= 'Z' {
        c as int + 32
    } else {
        c as int
    }
}

/// True where the two characters are the same but for their case.
pub open spec fn same_letter(a: char, b: char) -> bool {
    ||| a == b
    ||| is_ascii(a) && is_ascii(b) && ascii_lower(a) == ascii_lower(b)
    ||| !(is_ascii(a) && is_ascii(b)) && unicode_same_letter(a, b)
}

/// True where the two words are the same but for the case of their letters.
pub open spec fn same_word(a: Seq<char>, b: Seq<char>) -> bool {
    a.len() == b.len() && forall|i: int| 0 <= i < a.len() ==> same_letter(a[i], #[trigger] b[i])
}

/// True where a word starts or ends at `i`: exactly one of the characters before
/// and after that place is a word character.
pub open spec fn word_boundary(s: Seq<char>, i: int) -> bool {
    (i > 0 && word_char(s[i - 1])) != (i < s.len() && word_char(s[i]))
}

/// True where `said` is the words, one after the other, each in any case, with
/// white space between each two.
pub open spec fn says(words: Seq<Seq<char>>, said: Seq<char>) -> bool
    decreases words.len(),
{
    if words.len() == 0 {
        false
    } else if words.len() == 1 {
        same_word(words[0], said)
    } else {
        let n = words[0].len() as int;
        &&& n <= said.len()
        &&& same_word(words[0], said.take(n))
        &&& exists|m: int|
            n < m <= said.len() && text::blank(said.subrange(n, m)) && says(
                words.drop_first(),
                #[trigger] said.skip(m),
            )
    }
}

/// True where the words stand in `s` from `i` to `j`, as whole words.
pub open spec fn whole_word_at(words: Seq<Seq<char>>, s: Seq<char>, i: int, j: int) -> bool {
    &&& 0 <= i < j <= s.len()
    &&& word_boundary(s, i)
    &&& word_boundary(s, j)
    &&& says(words, s.subrange(i, j))
}

/// True where the words stand in `s` from `i` on, as whole words.
pub open spec fn whole_word_from(words: Seq<Seq<char>>, s: Seq<char>, i: int) -> bool {
    exists|j: int| whole_word_at(words, s, i, j)
}

/// True where the spans lie in a text of length `len`, from left to right, and no
/// two overlap.
pub open spec fn separate_spans(spans: Seq<(int, int)>, len: int) -> bool {
    &&& forall|k: int|
        0 <= k < spans.len() ==> 0 <= (#[trigger] spans[k]).0 <= spans[k].1 <= len
    &&& forall|k: int, m: int|
        0 <= k < m < spans.len() ==> (#[trigger] spans[k]).1 <= (#[trigger] spans[m]).0
}

/// True where the spans are whole-word places of the words in `s`, and every
/// whole-word place starts in one of them.
pub open spec fn whole_word_spans(
    words: Seq<Seq<char>>,
    s: Seq<char>,
    spans: Seq<(int, int)>,
) -> bool {
    &&& forall|k: int|
        0 <= k < spans.len() ==> whole_word_at(words, s, (#[trigger] spans[k]).0, spans[k].1)
    &&& forall|i: int|
        #[trigger] whole_word_from(words, s, i) ==> exists|k: int|
            0 <= k < spans.len() && (#[trigger] spans[k]).0 <= i < spans[k].1
}

/// What follows `pos` in `s`, with `with` in place of each span.
pub open spec fn spliced_from(
    s: Seq<char>,
    spans: Seq<(int, int)>,
    with: Seq<char>,
    pos: int,
) -> Seq<char>
    decreases spans.len(),
{
    if spans.len() == 0 {
        s.skip(pos)
    } else {
        s.subrange(pos, spans[0].0) + with + spliced_from(s, spans.drop_first(), with, spans[0].1)
    }
}

/// `s` with `with` in place of each span.
pub open spec fn spliced(s: Seq<char>, spans: Seq<(int, int)>, with: Seq<char>) -> Seq<char> {
    spliced_from(s, spans, with, 0)
}

/// Whether the regex crate compiles the pattern: the pattern has to be valid, and
/// its compiled form no larger than a fixed number of bytes, which is why the
/// width of a pointer counts too.
pub uninterp spec fn regex_builds(
    pattern: Seq<char>,
    case_insensitive: bool,
    pointer_bits: nat,
) -> bool;

/// What `Regex::find_iter` finds in the haystack: the start and the end of each
/// match, counted in characters.
pub uninterp spec fn regex_spans(
    pattern: Seq<char>,
    case_insensitive: bool,
    haystack: Seq<char>,
) -> Seq<(int, int)>;

/// Compiles the pattern with `RegexBuilder` (`new`, `case_insensitive`, `build`)
/// and puts the replacement in place of its matches with `Regex::replace_all`,
/// `NoExpand` making the replacement literal.
///
/// What is claimed: whether the pattern compiles is named `regex_builds`; the
/// result is the haystack with the replacement, character for character, in place
/// of each match, the matches being named `regex_spans`; they do not overlap; and
/// those of a pattern of the form `\bword\s+word\b`, case being ignored, are the
/// leftmost whole-word places of those words. Of the tables behind `\w` and case
/// folding: no private-use character is a word character; neither white space nor
/// private-use characters have case; and beyond ASCII only the long s and the
/// kelvin sign match an ASCII character where case is ignored.
#[verifier::external_body]
fn regex_replace_all(
    pattern: &str,
    case_insensitive: bool,
    haystack: &str,
    replacement: &str,
) -> (r: Option<String>)
    ensures
        r is Some <==> regex_builds(pattern@, case_insensitive, usize::BITS as nat),
        r matches Some(s) ==> s@ == spliced(
            haystack@,
            regex_spans(pattern@, case_insensitive, haystack@),
            replacement@,
        ),
        r is Some ==> separate_spans(
            regex_spans(pattern@, case_insensitive, haystack@),
            haystack@.len() as int,
        ),
        r is Some && case_insensitive ==> forall|words: Seq<Seq<char>>|
            pattern@ == #[trigger] whole_word_pattern(words) && text::proper_words(words)
                ==> whole_word_spans(
                words,
                haystack@,
                regex_spans(pattern@, case_insensitive, haystack@),
            ),
        r is Some ==> forall|c: char| #[trigger]
            unicode_word_char(c) ==> !text::private_use(c),
        r is Some ==> forall|a: char, b: char| #[trigger]
            unicode_same_letter(a, b) ==> {
                &&& !text::white_space(a) && !text::white_space(b)
                &&& !text::private_use(a) && !text::private_use(b)
                &&& is_ascii(a) ==> b == '\u{17F}' || b == '\u{212A}'
            },
{
    let re = regex::RegexBuilder::new(pattern).case_insensitive(case_insensitive).build().ok()?;
    Some(re.replace_all(haystack, regex::NoExpand(replacement)).into_owned())
}

/// A command as it stands in marked text: its kind and its replacement between
/// the two marks.
pub open spec fn marker(kind: Kind, replacement: Seq<char>) -> Seq<char> {
    seq![MARK_START, kind.tag_char()] + replacement + seq![MARK_END]
}

/// The marker of a command.
pub open spec fn marker_of(c: CommandModel) -> Seq<char> {
    marker(kind::kind_of(c.replacement, kind::lowercase(c.phrase)), c.replacement)
}

/// The regular expression of a command's phrase.
pub open spec fn pattern_of(c: CommandModel) -> Seq<char> {
    whole_word_pattern(text::words(c.phrase))
}

/// True where the phrase of `c` can be looked for: it has words, and the regular
/// expression for them compiles.
pub open spec fn searchable(c: CommandModel) -> bool {
    !text::blank(c.phrase) && regex_builds(pattern_of(c), true, usize::BITS as nat)
}

/// The places of the phrase of `c` in `s`.
pub open spec fn places(c: CommandModel, s: Seq<char>) -> Seq<(int, int)> {
    regex_spans(pattern_of(c), true, s)
}

/// `s` with the marker of `c` in place of its phrase, wherever that is said.
pub open spec fn marked_up(s: Seq<char>, c: CommandModel) -> Seq<char> {
    if searchable(c) {
        spliced(s, places(c, s), marker_of(c))
    } else {
        s
    }
}

/// True where the places found for `c` in `s` are those where its phrase is said
/// as whole words: nothing inside another word, nothing that overlaps, and none
/// passed over. There is no other list of such places.
pub open spec fn found_as_whole_words(c: CommandModel, s: Seq<char>) -> bool {
    &&& separate_spans(places(c, s), s.len() as int)
    &&& whole_word_spans(text::words(c.phrase), s, places(c, s))
    &&& forall|other: Seq<(int, int)>| #[trigger]
        separate_spans(other, s.len() as int) && whole_word_spans(
            text::words(c.phrase),
            s,
            other,
        ) ==> other == places(c, s)
}

/// True where case folding never turns white space into something else, or
/// something else into white space.
pub open spec fn space_has_no_case() -> bool {
    forall|a: char, b: char| #[trigger]
        unicode_same_letter(a, b) ==> !text::white_space(a) && !text::white_space(b)
}

/// True of a mark.
pub open spec fn is_mark(c: char) -> bool {
    c == MARK_START || c == MARK_END
}

/// True where `s` holds no mark.
pub open spec fn mark_free(s: Seq<char>) -> bool {
    forall|i: int| 0 <= i < s.len() ==> !is_mark(#[trigger] s[i])
}

/// True where a mark is never said with another character.
pub open spec fn marks_have_no_case() -> bool {
    forall|a: char, b: char| #[trigger]
        same_letter(a, b) && (is_mark(a) || is_mark(b)) ==> a == b
}

/// True of an ASCII letter.
pub open spec fn ascii_letter(c: char) -> bool {
    'a' <= c <= 'z' || 'A' <= c <= 'Z'
}

/// True of the letters that an ASCII letter is said with, case being ignored: the
/// ASCII letters, the long s and the kelvin sign.
pub open spec fn said_as_ascii_letter(c: char) -> bool {
    ascii_letter(c) || c == '\u{17F}' || c == '\u{212A}'
}

/// True where an ASCII letter is never said with anything else.
pub open spec fn ascii_letters_are_plain() -> bool {
    forall|a: char, b: char|
        ascii_letter(a) && #[trigger] same_letter(a, b) ==> said_as_ascii_letter(b)
}

/// Words that are said start with a character that is no white space.
proof fn lemma_said_starts_solid(words: Seq<Seq<char>>, said: Seq<char>)
    requires
        space_has_no_case(),
        text::proper_words(words),
        says(words, said),
    ensures
        said.len() > 0,
        !text::white_space(said[0]),
{
    let w = words[0];
    assert(w.len() > 0);
    assert(!text::white_space(w[0]));
    if words.len() == 1 {
        assert(same_letter(w[0], said[0]));
    } else {
        let head = said.take(w.len() as int);
        assert(same_letter(w[0], head[0]));
    }
}

/// From one place on, words can be said in one way only.
proof fn lemma_said_once(words: Seq<Seq<char>>, s: Seq<char>, a: int, b: int)
    requires
        space_has_no_case(),
        text::proper_words(words),
        0 <= a <= s.len(),
        0 <= b <= s.len(),
        says(words, s.take(a)),
        says(words, s.take(b)),
    ensures
        a == b,
    decreases words.len(),
{
    if words.len() > 1 {
        let n = words[0].len() as int;
        let rest = words.drop_first();
        assert(text::proper_words(rest)) by {
            assert forall|k: int| 0 <= k < rest.len() implies {
                &&& (#[trigger] rest[k]).len() > 0
                &&& forall|i: int|
                    0 <= i < rest[k].len() ==> !text::white_space(#[trigger] rest[k][i])
            } by {
                assert(rest[k] == words[k + 1]);
            }
        }
        let x = s.take(a);
        let y = s.take(b);
        let p = choose|m: int|
            n < m <= x.len() && text::blank(x.subrange(n, m)) && says(rest, #[trigger] x.skip(m));
        let q = choose|m: int|
            n < m <= y.len() && text::blank(y.subrange(n, m)) && says(rest, #[trigger] y.skip(m));
        lemma_said_starts_solid(rest, x.skip(p));
        lemma_said_starts_solid(rest, y.skip(q));
        assert(x.skip(p)[0] == s[p]);
        assert(y.skip(q)[0] == s[q]);
        if p < q {
            assert(y.subrange(n, q)[p - n] == s[p]);
        }
        if q < p {
            assert(x.subrange(n, p)[q - n] == s[q]);
        }
        assert(x.skip(p) =~= s.skip(p).take(a - p));
        assert(y.skip(q) =~= s.skip(p).take(b - p));
        lemma_said_once(rest, s.skip(p), a - p, b - p);
    }
}

/// The next place of one list of whole-word places is the next of any other, where
/// the two agree so far.
proof fn lemma_next_place(
    words: Seq<Seq<char>>,
    s: Seq<char>,
    x: Seq<(int, int)>,
    y: Seq<(int, int)>,
    k: int,
)
    requires
        separate_spans(x, s.len() as int),
        separate_spans(y, s.len() as int),
        whole_word_spans(words, s, x),
        whole_word_spans(words, s, y),
        0 <= k < x.len(),
        k <= y.len(),
        forall|m: int| 0 <= m < k ==> x[m] == #[trigger] y[m],
    ensures
        k < y.len(),
        y[k].0 <= x[k].0,
{
    assert(whole_word_at(words, s, x[k].0, x[k].1));
    assert(whole_word_from(words, s, x[k].0));
    let m = choose|m: int| 0 <= m < y.len() && (#[trigger] y[m]).0 <= x[k].0 < y[m].1;
    if m < k {
        assert(x[m] == y[m]);
        assert(x[m].1 <= x[k].0);
    }
    if k < m {
        assert(y[k].1 <= y[m].0);
        assert(whole_word_at(words, s, y[k].0, y[k].1));
    }
}

/// A text has one list of whole-word places of given words only.
proof fn lemma_places_are_determined(
    words: Seq<Seq<char>>,
    s: Seq<char>,
    x: Seq<(int, int)>,
    y: Seq<(int, int)>,
)
    requires
        space_has_no_case(),
        text::proper_words(words),
        separate_spans(x, s.len() as int),
        separate_spans(y, s.len() as int),
        whole_word_spans(words, s, x),
        whole_word_spans(words, s, y),
    ensures
        x == y,
{
    lemma_places_agree(words, s, x, y, x.len() as int);
    lemma_places_agree(words, s, y, x, y.len() as int);
    assert(x =~= y);
}

proof fn lemma_places_agree(
    words: Seq<Seq<char>>,
    s: Seq<char>,
    x: Seq<(int, int)>,
    y: Seq<(int, int)>,
    k: int,
)
    requires
        space_has_no_case(),
        text::proper_words(words),
        separate_spans(x, s.len() as int),
        separate_spans(y, s.len() as int),
        whole_word_spans(words, s, x),
        whole_word_spans(words, s, y),
        0 <= k <= x.len(),
    ensures
        k <= y.len(),
        forall|m: int| 0 <= m < k ==> x[m] == #[trigger] y[m],
    decreases k,
{
    if k > 0 {
        let m = k - 1;
        lemma_places_agree(words, s, x, y, m);
        lemma_next_place(words, s, x, y, m);
        lemma_next_place(words, s, y, x, m);
        let i = x[m].0;
        assert(whole_word_at(words, s, x[m].0, x[m].1));
        assert(whole_word_at(words, s, y[m].0, y[m].1));
        assert(s.subrange(i, x[m].1) =~= s.skip(i).take(x[m].1 - i));
        assert(s.subrange(i, y[m].1) =~= s.skip(i).take(y[m].1 - i));
        lemma_said_once(words, s.skip(i), x[m].1 - i, y[m].1 - i);
    }
}

/// The marker of a command.
pub fn command_marker(cmd: &SpokenCommand) -> (r: String)
    ensures
        r@ == marker_of(cmd@),
{
    let mut r = String::new();
    r.push(MARK_START);
    r.push(kind::classify(cmd).tag());
    r.append(cmd.replacement.as_str());
    r.push(MARK_END);
    assert(r@ =~= marker_of(cmd@));
    r
}

/// Marks the phrase of a command wherever it is said in `s`. A mark is no word
/// character: a word ends beside it as beside a space. Nor is it a letter in
/// another case.
pub fn mark_phrase(s: &str, cmd: &SpokenCommand) -> (r: String)
    ensures
        r@ == marked_up(s@, cmd@),
        searchable(cmd@) ==> found_as_whole_words(cmd@, s@),
        searchable(cmd@) ==> !word_char(MARK_START) && !word_char(MARK_END),
        searchable(cmd@) ==> marks_have_no_case() && ascii_letters_are_plain(),
{
    proof {
        text::lemma_blank_has_no_words(cmd@.phrase);
        text::lemma_words_are_proper(cmd@.phrase);
    }
    match phrase_regex(cmd.phrase.as_str()) {
        None => s.to_owned(),
        Some(pattern) => {
            let marker = command_marker(cmd);
            match regex_replace_all(pattern.as_str(), true, s, marker.as_str()) {
                Some(r) => {
                    proof {
                        let words = text::words(cmd@.phrase);
                        let found = places(cmd@, s@);
                        assert forall|other: Seq<(int, int)>| #[trigger]
                            separate_spans(other, s@.len() as int) && whole_word_spans(
                                words,
                                s@,
                                other,
                            ) implies other == found by {
                            lemma_places_are_determined(words, s@, other, found);
                        }
                    }
                    r
                },
                None => s.to_owned(),
            }
        },
    }
}

/// A phrase is never found inside a longer word: at neither end of a place where
/// it is found does a word go on.
pub proof fn law_never_inside_a_word(words: Seq<Seq<char>>, s: Seq<char>, i: int, j: int)
    ensures
        whole_word_at(words, s, i, j) ==> {
            &&& !(i > 0 && word_char(s[i - 1]) && word_char(s[i]))
            &&& !(j < s.len() && word_char(s[j - 1]) && word_char(s[j]))
        },
{
}

/// True where the two characters are the same but for the case of an ASCII letter.
pub open spec fn same_but_ascii_case(a: char, b: char) -> bool {
    a == b || (is_ascii(a) && is_ascii(b) && ascii_lower(a) == ascii_lower(b))
}

/// True where the two texts are the same but for the case of ASCII letters.
pub open spec fn same_text_but_ascii_case(s: Seq<char>, t: Seq<char>) -> bool {
    s.len() == t.len() && forall|k: int|
        0 <= k < s.len() ==> same_but_ascii_case(#[trigger] s[k], #[trigger] t[k])
}

/// True where all words are ASCII.
pub open spec fn ascii_words(words: Seq<Seq<char>>) -> bool {
    forall|k: int, i: int|
        0 <= k < words.len() && 0 <= i < words[k].len() ==> is_ascii(#[trigger] words[k][i])
}

proof fn lemma_same_word_but_case(w: Seq<char>, s: Seq<char>, t: Seq<char>)
    requires
        forall|i: int| 0 <= i < w.len() ==> is_ascii(#[trigger] w[i]),
        same_text_but_ascii_case(s, t),
        same_word(w, s),
    ensures
        same_word(w, t),
{
    assert forall|i: int| 0 <= i < w.len() implies same_letter(w[i], #[trigger] t[i]) by {
        assert(same_letter(w[i], s[i]));
        assert(same_but_ascii_case(s[i], t[i]));
        assert(is_ascii(w[i]));
    }
}

proof fn lemma_says_but_case(words: Seq<Seq<char>>, s: Seq<char>, t: Seq<char>)
    requires
        ascii_words(words),
        same_text_but_ascii_case(s, t),
        says(words, s),
    ensures
        says(words, t),
    decreases words.len(),
{
    let w = words[0];
    assert forall|i: int| 0 <= i < w.len() implies is_ascii(#[trigger] w[i]) by {
        assert(is_ascii(words[0][i]));
    }
    if words.len() == 1 {
        lemma_same_word_but_case(w, s, t);
    } else {
        let n = w.len() as int;
        let rest = words.drop_first();
        let m = choose|m: int|
            n < m <= s.len() && text::blank(s.subrange(n, m)) && says(rest, #[trigger] s.skip(m));
        assert forall|k: int| 0 <= k < n implies same_but_ascii_case(
            #[trigger] s.take(n)[k],
            #[trigger] t.take(n)[k],
        ) by {
            assert(same_but_ascii_case(s[k], t[k]));
        }
        lemma_same_word_but_case(w, s.take(n), t.take(n));
        assert forall|k: int| 0 <= k < m - n implies text::white_space(
            #[trigger] t.subrange(n, m)[k],
        ) by {
            assert(text::white_space(s.subrange(n, m)[k]));
            assert(same_but_ascii_case(s[n + k], t[n + k]));
        }
        assert forall|k: int| 0 <= k < s.len() - m implies same_but_ascii_case(
            #[trigger] s.skip(m)[k],
            #[trigger] t.skip(m)[k],
        ) by {
            assert(same_but_ascii_case(s[m + k], t[m + k]));
        }
        assert(ascii_words(rest)) by {
            assert forall|k: int, i: int|
                0 <= k < rest.len() && 0 <= i < rest[k].len() implies is_ascii(
                #[trigger] rest[k][i],
            ) by {
                assert(is_ascii(words[k + 1][i]));
            }
        }
        lemma_says_but_case(rest, s.skip(m), t.skip(m));
        assert(n < m <= t.len() && text::blank(t.subrange(n, m)) && says(rest, t.skip(m)));
    }
}

/// The case in which an ASCII phrase is said makes no difference: texts that
/// differ in the case of ASCII letters only have it in the same places.
pub proof fn law_case_makes_no_difference(
    words: Seq<Seq<char>>,
    s: Seq<char>,
    t: Seq<char>,
    i: int,
    j: int,
)
    requires
        ascii_words(words),
        same_text_but_ascii_case(s, t),
    ensures
        whole_word_at(words, s, i, j) <==> whole_word_at(words, t, i, j),
{
    lemma_case_one_way(words, s, t, i, j);
    assert forall|k: int| 0 <= k < s.len() implies same_but_ascii_case(
        #[trigger] t[k],
        #[trigger] s[k],
    ) by {
        assert(same_but_ascii_case(s[k], t[k]));
    }
    lemma_case_one_way(words, t, s, i, j);
}

proof fn lemma_case_one_way(
    words: Seq<Seq<char>>,
    s: Seq<char>,
    t: Seq<char>,
    i: int,
    j: int,
)
    requires
        ascii_words(words),
        same_text_but_ascii_case(s, t),
    ensures
        whole_word_at(words, s, i, j) ==> whole_word_at(words, t, i, j),
{
    if whole_word_at(words, s, i, j) {
        assert(forall|k: int|
            0 <= k < s.len() ==> (word_char(#[trigger] s[k]) <==> word_char(t[k]))) by {
            assert forall|k: int| 0 <= k < s.len() implies (word_char(#[trigger] s[k])
                <==> word_char(t[k])) by {
                assert(same_but_ascii_case(s[k], t[k]));
            }
        }
        let a = s.subrange(i, j);
        let b = t.subrange(i, j);
        assert forall|k: int| 0 <= k < a.len() implies same_but_ascii_case(
            #[trigger] a[k],
            #[trigger] b[k],
        ) by {
            assert(same_but_ascii_case(s[i + k], t[i + k]));
        }
        lemma_says_but_case(words, a, b);
    }
}

/// The pattern of words one after the other: the pattern of the first ones and that
/// of the last ones, with any white space where the two meet in place of the word
/// boundaries there; and the pattern of one word is its characters, each standing
/// for itself, between word boundaries.
pub proof fn law_pattern_of_words(x: Seq<Seq<char>>, y: Seq<Seq<char>>)
    requires
        x.len() > 0,
        y.len() > 0,
    ensures
        whole_word_pattern(seq![x[0]]) == seq!['\\', 'b'] + escaped(x[0]) + seq!['\\', 'b'],
        whole_word_pattern(x + y) == whole_word_pattern(x).drop_last().drop_last() + seq![
            '\\',
            's',
            '+',
        ] + whole_word_pattern(y).skip(2),
{
    let sep = seq!['\\', 's', '+'];
    let esc = |w: Seq<char>| escaped(w);
    assert((x + y).map_values(esc) =~= x.map_values(esc) + y.map_values(esc));
    assert(seq![x[0]].map_values(esc) =~= seq![escaped(x[0])]);
    text::law_joining_in_turn(x.map_values(esc), y.map_values(esc), sep);
    let a = text::joined(x.map_values(esc), sep);
    let b = text::joined(y.map_values(esc), sep);
    let edge = seq!['\\', 'b'];
    assert((edge + a + edge).drop_last().drop_last() =~= edge + a);
    assert((edge + b + edge).skip(2) =~= b + edge);
    assert(edge + (a + sep + b) + edge =~= edge + a + sep + (b + edge));
    assert(edge + escaped(x[0]) + edge =~= whole_word_pattern(seq![x[0]]));
}

/// Escaping goes character by character: a character that means something else in
/// a pattern gets a backslash, any other stays.
pub proof fn law_escaping_in_turn(a: Seq<char>, c: char)
    ensures
        escaped(Seq::<char>::empty()).len() == 0,
        c == '\\' || c == '.' || c == '+' || c == '*' || c == '?' || c == '(' || c == ')' || c == '|'
            || c == '[' || c == ']' || c == '{' || c == '}' || c == '^' || c == '$' || c == '#'
            || c == '&' || c == '-' || c == '~' ==> escaped(a + seq![c]) == escaped(a) + seq![
            '\\',
            c,
        ],
        !(c == '\\' || c == '.' || c == '+' || c == '*' || c == '?' || c == '(' || c == ')' || c
            == '|' || c == '[' || c == ']' || c == '{' || c == '}' || c == '^' || c == '$' || c
            == '#' || c == '&' || c == '-' || c == '~') ==> escaped(a + seq![c]) == escaped(a)
            + seq![c],
{
    let all = a + seq![c];
    assert(all.drop_last() =~= a);
    assert(all.last() == c);
}

/// Replacing places: what stands before the last of them has its own places
/// replaced, then comes the replacement, then what stands behind. Without places,
/// nothing changes.
pub proof fn law_places_are_replaced(
    s: Seq<char>,
    front: Seq<(int, int)>,
    i: int,
    j: int,
    with: Seq<char>,
)
    requires
        0 <= i <= j <= s.len(),
        forall|k: int| 0 <= k < front.len() ==> 0 <= (#[trigger] front[k]).0 <= front[k].1 <= i,
        forall|k: int, m: int|
            0 <= k < m < front.len() ==> (#[trigger] front[k]).1 <= (#[trigger] front[m]).0,
    ensures
        spliced(s, Seq::<(int, int)>::empty(), with) == s,
        spliced(s, front.push((i, j)), with) == spliced(s.take(i), front, with) + with + s.skip(j),
{
    assert(s.skip(0) =~= s);
    lemma_places_are_replaced(s, front, i, j, with, 0);
}

proof fn lemma_places_are_replaced(
    s: Seq<char>,
    front: Seq<(int, int)>,
    i: int,
    j: int,
    with: Seq<char>,
    pos: int,
)
    requires
        0 <= pos <= i <= j <= s.len(),
        forall|k: int| 0 <= k < front.len() ==> pos <= (#[trigger] front[k]).0 <= front[k].1 <= i,
        forall|k: int, m: int|
            0 <= k < m < front.len() ==> (#[trigger] front[k]).1 <= (#[trigger] front[m]).0,
    ensures
        spliced_from(s, front.push((i, j)), with, pos) == spliced_from(
            s.take(i),
            front,
            with,
            pos,
        ) + with + s.skip(j),
    decreases front.len(),
{
    let all = front.push((i, j));
    if front.len() == 0 {
        assert(all.drop_first() =~= Seq::empty());
        assert(s.take(i).skip(pos) =~= s.subrange(pos, i));
        assert(spliced_from(s, all.drop_first(), with, j) == s.skip(j));
    } else {
        let rest = front.drop_first();
        let f = front[0];
        assert(all[0] == f);
        assert(all.drop_first() =~= rest.push((i, j)));
        assert forall|k: int| 0 <= k < rest.len() implies f.1 <= (#[trigger] rest[k]).0 <= rest[k].1
            <= i by {
            assert(rest[k] == front[k + 1]);
        }
        assert forall|k: int, m: int| 0 <= k < m < rest.len() implies (#[trigger] rest[k]).1 <= (
        #[trigger] rest[m]).0 by {
            assert(rest[k] == front[k + 1] && rest[m] == front[m + 1]);
        }
        lemma_places_are_replaced(s, rest, i, j, with, f.1);
        assert(s.take(i).subrange(pos, f.0) =~= s.subrange(pos, f.0));
        assert(spliced_from(s, all, with, pos) =~= spliced_from(s.take(i), front, with, pos) + with
            + s.skip(j));
    }
}

/// A marker is the opening mark, the tag of the kind, the replacement character for
/// character, and the closing mark.
pub proof fn law_what_a_marker_holds(kind: Kind, replacement: Seq<char>)
    ensures
        marker(kind, replacement).len() == replacement.len() + 3,
        marker(kind, replacement)[0] == '\u{E000}',
        marker(kind, replacement)[1] == kind.tag_char(),
        forall|i: int|
            0 <= i < replacement.len() ==> marker(kind, replacement)[i + 2]
                == #[trigger] replacement[i],
        marker(kind, replacement).last() == '\u{E001}',
        MARK_START == '\u{E000}',
        MARK_END == '\u{E001}',
{
}

/// Marking a command: where its phrase has something else than white space in it and
/// its pattern compiles, the places that the pattern has in the text, case being
/// ignored, make way for the marker of its kind and replacement. Else nothing
/// changes.
pub proof fn law_what_marking_does(s: Seq<char>, c: CommandModel)
    ensures
        ({
            let said = exists|i: int|
                0 <= i < c.phrase.len() && !text::white_space(#[trigger] c.phrase[i]);
            let pattern = whole_word_pattern(text::words(c.phrase));
            let kind = kind::kind_of(c.replacement, kind::lowercase(c.phrase));
            if said && regex_builds(pattern, true, usize::BITS as nat) {
                marked_up(s, c) == spliced(
                    s,
                    regex_spans(pattern, true, s),
                    seq!['\u{E000}', kind.tag_char()] + c.replacement + seq!['\u{E001}'],
                )
            } else {
                marked_up(s, c) == s
            }
        }),
{
}

/// A phrase that is said in one place only is replaced there by its marker, and
/// nothing else changes; one that is said nowhere changes nothing.
pub proof fn law_what_is_said_is_marked(s: Seq<char>, c: CommandModel, i: int, j: int)
    ensures
        ({
            let words = text::words(c.phrase);
            let kind = kind::kind_of(c.replacement, kind::lowercase(c.phrase));
            searchable(c) && found_as_whole_words(c, s) ==> {
                &&& (forall|a: int, b: int| !#[trigger] whole_word_at(words, s, a, b)) ==> marked_up(
                    s,
                    c,
                ) == s
                &&& whole_word_at(words, s, i, j) && (forall|a: int, b: int| #[trigger]
                    whole_word_at(words, s, a, b) ==> a == i && b == j) ==> marked_up(s, c)
                    == s.take(i) + seq!['\u{E000}', kind.tag_char()] + c.replacement + seq![
                    '\u{E001}',
                ] + s.skip(j)
            }
        }),
{
    let words = text::words(c.phrase);
    let spans = places(c, s);
    if searchable(c) && found_as_whole_words(c, s) {
        if forall|a: int, b: int| !#[trigger] whole_word_at(words, s, a, b) {
            if spans.len() > 0 {
                assert(whole_word_at(words, s, spans[0].0, spans[0].1));
            }
            assert(s.skip(0) =~= s);
        }
        if whole_word_at(words, s, i, j) && (forall|a: int, b: int| #[trigger]
            whole_word_at(words, s, a, b) ==> a == i && b == j) {
            assert(whole_word_from(words, s, i));
            let k = choose|k: int|
                0 <= k < spans.len() && (#[trigger] spans[k]).0 <= i < spans[k].1;
            if spans.len() > 1 {
                assert(whole_word_at(words, s, spans[0].0, spans[0].1));
                assert(whole_word_at(words, s, spans[1].0, spans[1].1));
                assert(spans[0].1 <= spans[1].0);
            }
            assert(whole_word_at(words, s, spans[0].0, spans[0].1));
            assert(spans[0] == (i, j));
            assert(spans.drop_first() =~= Seq::empty());
            let marker = marker_of(c);
            assert(spliced_from(s, spans.drop_first(), marker, j) == s.skip(j));
            assert(s.subrange(0, i) =~= s.take(i));
            let kind = kind::kind_of(c.replacement, kind::lowercase(c.phrase));
            assert(s.subrange(0, i) + marker + s.skip(j) =~= s.take(i) + seq![
                '\u{E000}',
                kind.tag_char(),
            ] + c.replacement + seq!['\u{E001}'] + s.skip(j));
        }
    }
}

/// What a word is made of, and which ASCII characters are the same but for case.
pub proof fn law_ascii_words_and_case(a: char, b: char)
    requires
        a <= '\u{7f}',
        b <= '\u{7f}',
    ensures
        word_char(a) <==> 'a' <= a <= 'z' || 'A' <= a <= 'Z' || '0' <= a <= '9' || a == '_',
        same_letter(a, b) <==> a == b || ('A' <= a <= 'Z' && b as int == a as int + 32) || (
        'A' <= b <= 'Z' && a as int == b as int + 32),
{
}

/// Beyond ASCII the tables of the regex crate tell words and case.
pub proof fn law_other_words_and_case(a: char, b: char)
    requires
        a > '\u{7f}',
    ensures
        word_char(a) <==> unicode_word_char(a),
        same_letter(a, b) <==> a == b || unicode_same_letter(a, b),
        same_letter(b, a) <==> a == b || unicode_same_letter(b, a),
{
}

/// Where words stand as a whole: a word starts or ends at both ends of the place,
/// and between them the words are said.
pub proof fn law_where_words_stand(words: Seq<Seq<char>>, s: Seq<char>, i: int, j: int)
    requires
        0 < i < j < s.len(),
    ensures
        whole_word_at(words, s, i, j) <==> {
            &&& word_char(s[i - 1]) != word_char(s[i])
            &&& word_char(s[j - 1]) != word_char(s[j])
            &&& says(words, s.subrange(i, j))
        },
        whole_word_at(words, s, 0, j) <==> {
            &&& word_char(s[0])
            &&& word_char(s[j - 1]) != word_char(s[j])
            &&& says(words, s.subrange(0, j))
        },
        whole_word_at(words, s, i, s.len() as int) <==> {
            &&& word_char(s[i - 1]) != word_char(s[i])
            &&& word_char(s.last())
            &&& says(words, s.subrange(i, s.len() as int))
        },
        whole_word_at(words, s, 0, s.len() as int) <==> {
            &&& word_char(s[0])
            &&& word_char(s.last())
            &&& says(words, s)
        },
        !whole_word_at(words, s, i, i),
        !whole_word_at(words, s, j, i),
{
    assert(s.subrange(0, s.len() as int) =~= s);
}

/// How words are said: one word letter by letter, in any case; a word and more words
/// by saying the one, then white space, then the others.
pub proof fn law_how_words_are_said(
    w: Seq<char>,
    rest: Seq<Seq<char>>,
    t: Seq<char>,
    gap: Seq<char>,
    u: Seq<char>,
)
    requires
        rest.len() > 0,
        gap.len() > 0,
        forall|k: int| 0 <= k < gap.len() ==> text::white_space(#[trigger] gap[k]),
    ensures
        says(seq![w], t) <==> w.len() == t.len() && forall|k: int|
            0 <= k < w.len() ==> same_letter(w[k], #[trigger] t[k]),
        says(seq![w], t) && says(rest, u) ==> says(seq![w] + rest, t + gap + u),
        says(seq![w] + rest, u) ==> exists|m: int|
            w.len() < m <= u.len() && says(seq![w], u.take(w.len() as int)) && says(
                rest,
                #[trigger] u.skip(m),
            ) && forall|k: int| w.len() <= k < m ==> text::white_space(#[trigger] u[k]),
{
    let all = seq![w] + rest;
    let said = t + gap + u;
    let n = w.len() as int;
    assert(seq![w][0] == w);
    assert(all[0] == w);
    assert(all.drop_first() =~= rest);
    if says(seq![w], t) && says(rest, u) {
        let m = n + gap.len();
        assert(said.take(n) =~= t);
        assert(said.subrange(n, m) =~= gap);
        assert(said.skip(m) =~= u);
    }
    if says(all, u) {
        let m = choose|m: int|
            n < m <= u.len() && text::blank(u.subrange(n, m)) && says(rest, #[trigger] u.skip(m));
        assert forall|k: int| n <= k < m implies text::white_space(#[trigger] u[k]) by {
            assert(u[k] == u.subrange(n, m)[k - n]);
        }
    }
}

/// What it is to be found as whole words: the places lie in the text one behind the
/// other, each is one where the phrase stands as a whole, and wherever it so stands
/// is in one of them.
pub proof fn law_what_is_found(c: CommandModel, s: Seq<char>, i: int, j: int, k: int, m: int)
    ensures
        found_as_whole_words(c, s) ==> {
            &&& 0 <= k < places(c, s).len() ==> {
                &&& 0 <= places(c, s)[k].0 < places(c, s)[k].1 <= s.len()
                &&& whole_word_at(
                    text::words(c.phrase),
                    s,
                    places(c, s)[k].0,
                    places(c, s)[k].1,
                )
            }
            &&& 0 <= k < m < places(c, s).len() ==> places(c, s)[k].1 <= places(c, s)[m].0
            &&& whole_word_at(text::words(c.phrase), s, i, j) ==> exists|n: int|
                0 <= n < places(c, s).len() && (#[trigger] places(c, s)[n]).0 <= i
                    < places(c, s)[n].1
        },
{
    if found_as_whole_words(c, s) {
        let words = text::words(c.phrase);
        if 0 <= k < places(c, s).len() {
            assert(whole_word_at(words, s, places(c, s)[k].0, places(c, s)[k].1));
        }
        if 0 <= k < m < places(c, s).len() {
            assert(places(c, s)[k].1 <= places(c, s)[m].0);
        }
        if whole_word_at(words, s, i, j) {
            assert(whole_word_from(words, s, i));
        }
    }
}

} // verus!
