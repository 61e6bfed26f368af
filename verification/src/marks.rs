//! Why no mark is left in finished text: marking keeps the marks of a text in
//! pairs, each pair round one command.
use crate::kind::Kind;
use crate::pattern;
use crate::pattern::{MARK_END, MARK_START};
use crate::render;
use crate::render::Piece;
use crate::settings::CommandModel;
use crate::text;
use vstd::prelude::*;

verus! {

/// Where in marked text a reader is, going from left to right.
pub enum Place {
    /// In plain text.
    Outside,
    /// Behind an opening mark, where the kind follows.
    Opened,
    /// In the replacement of a command.
    Inside,
    /// Behind something that does not belong there.
    Astray,
}

/// True of the tags of kinds.
pub open spec fn is_tag(c: char) -> bool {
    '0' <= c <= '6'
}

/// Where a reader is after one more character.
pub open spec fn after_char(at: Place, c: char) -> Place {
    match at {
        Place::Outside => if c == MARK_START {
            Place::Opened
        } else if c == MARK_END {
            Place::Astray
        } else {
            Place::Outside
        },
        Place::Opened => if is_tag(c) {
            Place::Inside
        } else {
            Place::Astray
        },
        Place::Inside => if c == MARK_END {
            Place::Outside
        } else if c == MARK_START || pattern::said_as_ascii_letter(c) {
            Place::Astray
        } else {
            Place::Inside
        },
        Place::Astray => Place::Astray,
    }
}

/// Where a reader who starts at `at` is after `s`.
pub open spec fn after_text(at: Place, s: Seq<char>) -> Place
    decreases s.len(),
{
    if s.len() == 0 {
        at
    } else {
        after_char(after_text(at, s.drop_last()), s.last())
    }
}

/// True where the marks of `s` come in pairs, each pair round the tag of a kind and
/// a replacement that an ASCII letter cannot be said in.
pub open spec fn well_marked(s: Seq<char>) -> bool {
    after_text(Place::Outside, s) is Outside
}

/// True where the phrase is made of ASCII letters and white space, and the
/// replacement holds no mark and nothing that an ASCII letter is said with: then
/// the phrase is not mistaken for part of a marked command, nor the replacement
/// for part of a phrase.
pub open spec fn unmistakable(c: CommandModel) -> bool {
    &&& forall|i: int|
        0 <= i < c.phrase.len() ==> (pattern::ascii_letter(#[trigger] c.phrase[i])
            || text::white_space(c.phrase[i]))
    &&& forall|i: int|
        0 <= i < c.replacement.len() ==> !pattern::is_mark(#[trigger] c.replacement[i])
            && !pattern::said_as_ascii_letter(c.replacement[i])
}

/// True where all the commands are.
pub open spec fn all_unmistakable(commands: Seq<CommandModel>) -> bool {
    forall|k: int| 0 <= k < commands.len() ==> unmistakable(#[trigger] commands[k])
}

/// Reading two texts one after the other is reading the whole.
proof fn lemma_in_turn(at: Place, a: Seq<char>, b: Seq<char>)
    ensures
        after_text(at, a + b) == after_text(after_text(at, a), b),
    decreases b.len(),
{
    if b.len() == 0 {
        assert(a + b =~= a);
    } else {
        assert((a + b).drop_last() =~= a + b.drop_last());
        lemma_in_turn(at, a, b.drop_last());
    }
}

/// A reader who is astray stays so.
proof fn lemma_astray(s: Seq<char>)
    ensures
        after_text(Place::Astray, s) is Astray,
    decreases s.len(),
{
    if s.len() > 0 {
        lemma_astray(s.drop_last());
    }
}

/// Reading a text is reading its first character and then the rest.
proof fn lemma_first_char(at: Place, s: Seq<char>)
    requires
        s.len() > 0,
    ensures
        after_text(at, s) == after_text(after_char(at, s[0]), s.drop_first()),
{
    let head = seq![s[0]];
    assert(s =~= head + s.drop_first());
    lemma_in_turn(at, head, s.drop_first());
    assert(head.drop_last() =~= Seq::empty());
    assert(after_text(at, head.drop_last()) == at);
}

/// Text without marks leaves a reader in plain text.
proof fn lemma_plain(s: Seq<char>)
    requires
        pattern::mark_free(s),
    ensures
        after_text(Place::Outside, s) is Outside,
    decreases s.len(),
{
    if s.len() > 0 {
        let before = s.drop_last();
        assert(!pattern::is_mark(s[s.len() - 1]));
        assert forall|i: int| 0 <= i < before.len() implies !pattern::is_mark(
            #[trigger] before[i],
        ) by {
            assert(before[i] == s[i]);
        }
        lemma_plain(before);
    }
}

/// Text without marks is well marked.
pub proof fn lemma_mark_free_is_well_marked(s: Seq<char>)
    requires
        pattern::mark_free(s),
    ensures
        well_marked(s),
{
    lemma_plain(s);
}

proof fn lemma_replacement(c: CommandModel, n: int)
    requires
        unmistakable(c),
        0 <= n <= c.replacement.len(),
    ensures
        after_text(Place::Inside, c.replacement.take(n)) is Inside,
    decreases n,
{
    if n > 0 {
        assert(c.replacement.take(n).drop_last() =~= c.replacement.take(n - 1));
        assert(!pattern::is_mark(c.replacement[n - 1]));
        lemma_replacement(c, n - 1);
    }
}

/// The marker of a command is well marked.
proof fn lemma_marker(c: CommandModel, kind: Kind)
    requires
        unmistakable(c),
    ensures
        well_marked(pattern::marker(kind, c.replacement)),
{
    let m = pattern::marker(kind, c.replacement);
    let rest = m.drop_first();
    lemma_first_char(Place::Outside, m);
    assert(rest[0] == kind.tag_char());
    lemma_first_char(Place::Opened, rest);
    let tail = rest.drop_first();
    assert(tail =~= c.replacement + seq![MARK_END]);
    lemma_replacement(c, c.replacement.len() as int);
    assert(c.replacement.take(c.replacement.len() as int) =~= c.replacement);
    assert(tail.drop_last() =~= c.replacement);
}

/// True of text that can stand in plain text only: it starts with a letter, and
/// holds no mark.
pub open spec fn spoken(t: Seq<char>) -> bool {
    t.len() > 0 && pattern::said_as_ascii_letter(t[0]) && pattern::mark_free(t)
}

/// True where all the words are made of ASCII letters.
pub open spec fn letter_words(words: Seq<Seq<char>>) -> bool {
    forall|k: int, i: int|
        0 <= k < words.len() && 0 <= i < words[k].len() ==> pattern::ascii_letter(
            #[trigger] words[k][i],
        )
}

proof fn lemma_word_is_spoken(w: Seq<char>, t: Seq<char>)
    requires
        pattern::ascii_letters_are_plain(),
        forall|i: int| 0 <= i < w.len() ==> pattern::ascii_letter(#[trigger] w[i]),
        w.len() > 0,
        pattern::same_word(w, t),
    ensures
        spoken(t),
{
    assert forall|i: int| 0 <= i < t.len() implies pattern::said_as_ascii_letter(
        #[trigger] t[i],
    ) by {
        assert(pattern::ascii_letter(w[i]));
        assert(pattern::same_letter(w[i], t[i]));
    }
    assert(pattern::said_as_ascii_letter(t[0]));
}

/// Where words of ASCII letters are said, no mark stands.
proof fn lemma_said_is_spoken(words: Seq<Seq<char>>, t: Seq<char>)
    requires
        pattern::ascii_letters_are_plain(),
        text::proper_words(words),
        letter_words(words),
        pattern::says(words, t),
    ensures
        spoken(t),
    decreases words.len(),
{
    let w = words[0];
    let n = w.len() as int;
    assert(w.len() > 0);
    assert forall|i: int| 0 <= i < w.len() implies pattern::ascii_letter(#[trigger] w[i]) by {
        assert(pattern::ascii_letter(words[0][i]));
    }
    if words.len() == 1 {
        lemma_word_is_spoken(w, t);
    } else {
        let rest = words.drop_first();
        let m = choose|m: int|
            n < m <= t.len() && text::blank(t.subrange(n, m)) && pattern::says(
                rest,
                #[trigger] t.skip(m),
            );
        assert(letter_words(rest)) by {
            assert forall|k: int, i: int|
                0 <= k < rest.len() && 0 <= i < rest[k].len() implies pattern::ascii_letter(
                #[trigger] rest[k][i],
            ) by {
                assert(rest[k][i] == words[k + 1][i]);
            }
        }
        assert(text::proper_words(rest)) by {
            assert forall|k: int| 0 <= k < rest.len() implies {
                &&& (#[trigger] rest[k]).len() > 0
                &&& forall|i: int|
                    0 <= i < rest[k].len() ==> !text::white_space(#[trigger] rest[k][i])
            } by {
                assert(rest[k] == words[k + 1]);
            }
        }
        lemma_word_is_spoken(w, t.take(n));
        lemma_said_is_spoken(rest, t.skip(m));
        assert(t[0] == t.take(n)[0]);
        assert forall|i: int| 0 <= i < t.len() implies !pattern::is_mark(#[trigger] t[i]) by {
            if i < n {
                assert(t[i] == t.take(n)[i]);
            } else if i < m {
                assert(t[i] == t.subrange(n, m)[i - n]);
            } else {
                assert(t[i] == t.skip(m)[i - m]);
            }
        }
    }
}

/// What can stand in plain text only does so in well-marked text.
proof fn lemma_spoken_is_outside(s: Seq<char>, i: int, j: int)
    requires
        well_marked(s),
        0 <= i < j <= s.len(),
        spoken(s.subrange(i, j)),
    ensures
        well_marked(s.take(i)),
        well_marked(s.take(j)),
{
    let a = s.take(i);
    let t = s.subrange(i, j);
    let b = s.skip(j);
    let at = after_text(Place::Outside, a);
    assert(s =~= a + t + b);
    assert(s.take(j) =~= a + t);
    lemma_in_turn(Place::Outside, a + t, b);
    lemma_in_turn(Place::Outside, a, t);
    lemma_astray(b);
    lemma_first_char(at, t);
    if !(at is Outside) {
        lemma_astray(t.drop_first());
    }
    lemma_plain(t);
}

/// Putting well-marked text in place of what can stand in plain text only keeps a
/// text well marked.
proof fn lemma_spliced(s: Seq<char>, spans: Seq<(int, int)>, with: Seq<char>, pos: int)
    requires
        0 <= pos <= s.len(),
        well_marked(s),
        well_marked(s.take(pos)),
        well_marked(with),
        pattern::separate_spans(spans, s.len() as int),
        spans.len() > 0 ==> pos <= spans[0].0,
        forall|k: int|
            0 <= k < spans.len() ==> (#[trigger] spans[k]).0 < spans[k].1 && spoken(
                s.subrange(spans[k].0, spans[k].1),
            ),
    ensures
        well_marked(pattern::spliced_from(s, spans, with, pos)),
    decreases spans.len(),
{
    if spans.len() == 0 {
        assert(s =~= s.take(pos) + s.skip(pos));
        lemma_in_turn(Place::Outside, s.take(pos), s.skip(pos));
    } else {
        let i = spans[0].0;
        let j = spans[0].1;
        let rest = spans.drop_first();
        lemma_spoken_is_outside(s, i, j);
        let lead = s.subrange(pos, i);
        assert(s.take(i) =~= s.take(pos) + lead);
        lemma_in_turn(Place::Outside, s.take(pos), lead);
        assert(pattern::separate_spans(rest, s.len() as int)) by {
            assert forall|k: int| 0 <= k < rest.len() implies 0 <= (#[trigger] rest[k]).0
                <= rest[k].1 <= s.len() by {
                assert(rest[k] == spans[k + 1]);
            }
            assert forall|k: int, m: int| 0 <= k < m < rest.len() implies (#[trigger] rest[k]).1
                <= (#[trigger] rest[m]).0 by {
                assert(rest[k] == spans[k + 1] && rest[m] == spans[m + 1]);
            }
        }
        assert forall|k: int| 0 <= k < rest.len() implies (#[trigger] rest[k]).0 < rest[k].1
            && spoken(s.subrange(rest[k].0, rest[k].1)) by {
            assert(rest[k] == spans[k + 1]);
        }
        if rest.len() > 0 {
            assert(spans[0].1 <= spans[1].0);
        }
        lemma_spliced(s, rest, with, j);
        let tail = pattern::spliced_from(s, rest, with, j);
        lemma_in_turn(Place::Outside, lead + with, tail);
        lemma_in_turn(Place::Outside, lead, with);
    }
}

/// Marking an unmistakable command keeps a text well marked.
pub proof fn lemma_marking_keeps_well_marked(s: Seq<char>, c: CommandModel)
    requires
        well_marked(s),
        unmistakable(c),
        pattern::searchable(c) ==> pattern::found_as_whole_words(c, s)
            && pattern::ascii_letters_are_plain(),
    ensures
        well_marked(pattern::marked_up(s, c)),
{
    if pattern::searchable(c) {
        let words = text::words(c.phrase);
        let spans = pattern::places(c, s);
        text::lemma_blank_has_no_words(c.phrase);
        text::lemma_words_are_proper(c.phrase);
        text::lemma_words_are_made_of(c.phrase);
        assert(letter_words(words)) by {
            assert forall|k: int, i: int|
                0 <= k < words.len() && 0 <= i < words[k].len() implies pattern::ascii_letter(
                #[trigger] words[k][i],
            ) by {
                assert(c.phrase.contains(words[k][i]));
                assert(words[k].len() > 0);
                assert(!text::white_space(words[k][i]));
            }
        }
        assert forall|k: int| 0 <= k < spans.len() implies (#[trigger] spans[k]).0 < spans[k].1
            && spoken(s.subrange(spans[k].0, spans[k].1)) by {
            assert(pattern::whole_word_at(words, s, spans[k].0, spans[k].1));
            lemma_said_is_spoken(words, s.subrange(spans[k].0, spans[k].1));
        }
        lemma_marker(c, crate::kind::kind_of(c.replacement, crate::kind::lowercase(c.phrase)));
        assert(s.take(0) =~= Seq::empty());
        lemma_spliced(s, spans, pattern::marker_of(c), 0);
    }
}

proof fn lemma_no_start(s: Seq<char>)
    requires
        render::free_of(s, MARK_START),
        !(after_text(Place::Outside, s) is Astray),
    ensures
        pattern::mark_free(s),
        after_text(Place::Outside, s) is Outside,
    decreases s.len(),
{
    if s.len() > 0 {
        let before = s.drop_last();
        assert forall|i: int| 0 <= i < before.len() implies #[trigger] before[i] != MARK_START by {
            assert(before[i] == s[i]);
        }
        assert(s[s.len() - 1] != MARK_START);
        lemma_no_start(before);
        assert forall|i: int| 0 <= i < s.len() implies !pattern::is_mark(#[trigger] s[i]) by {
            if i < before.len() {
                assert(before[i] == s[i]);
            }
        }
    }
}

proof fn lemma_no_end(s: Seq<char>)
    requires
        render::free_of(s, MARK_END),
        !(after_text(Place::Inside, s) is Astray),
    ensures
        pattern::mark_free(s),
        after_text(Place::Inside, s) is Inside,
    decreases s.len(),
{
    if s.len() > 0 {
        let before = s.drop_last();
        assert forall|i: int| 0 <= i < before.len() implies #[trigger] before[i] != MARK_END by {
            assert(before[i] == s[i]);
        }
        assert(s[s.len() - 1] != MARK_END);
        lemma_no_end(before);
        assert forall|i: int| 0 <= i < s.len() implies !pattern::is_mark(#[trigger] s[i]) by {
            if i < before.len() {
                assert(before[i] == s[i]);
            }
        }
    }
}

/// No piece of well-marked text holds a mark.
pub proof fn law_well_marked_pieces(s: Seq<char>)
    requires
        well_marked(s),
    ensures
        render::mark_free_pieces(render::pieces(s)),
    decreases s.len(),
{
    let start = text::first_index(s, MARK_START) as int;
    text::lemma_first_index_is(s, MARK_START);
    let head = s.take(start);
    let tail = s.skip(start);
    assert(s =~= head + tail);
    lemma_in_turn(Place::Outside, head, tail);
    lemma_astray(tail);
    assert forall|i: int| 0 <= i < head.len() implies #[trigger] head[i] != MARK_START by {
        assert(head[i] == s[i]);
    }
    lemma_no_start(head);
    if start >= s.len() {
        assert(head =~= s);
    } else {
        lemma_first_char(Place::Outside, tail);
        let inner = tail.drop_first();
        assert(after_text(Place::Opened, inner) is Outside);
        if start + 1 < s.len() {
            lemma_first_char(Place::Opened, inner);
            let body = s.skip(start + 2);
            assert(inner.drop_first() =~= body);
            assert(inner[0] == s[start + 1]);
            lemma_astray(body);
            let end = text::first_index(body, MARK_END) as int;
            text::lemma_first_index_is(body, MARK_END);
            let payload = body.take(end);
            let after = body.skip(end);
            assert(body =~= payload + after);
            lemma_in_turn(Place::Inside, payload, after);
            lemma_astray(after);
            assert forall|i: int| 0 <= i < payload.len() implies #[trigger] payload[i] != MARK_END by {
                assert(payload[i] == body[i]);
            }
            lemma_no_end(payload);
            if end < body.len() {
                lemma_first_char(Place::Inside, after);
                assert(after.drop_first() =~= body.skip(end + 1));
                law_well_marked_pieces(body.skip(end + 1));
                let lead = if start > 0 {
                    seq![Piece::Text(head)]
                } else {
                    Seq::empty()
                };
                let first = lead.push(Piece::Cmd(Kind::of_tag(s[start + 1]), payload));
                let more = render::pieces(body.skip(end + 1));
                assert(render::pieces(s) == first + more);
                assert forall|k: int| 0 <= k < (first + more).len() implies render::mark_free_piece(
                    #[trigger] (first + more)[k],
                ) by {
                    if k >= first.len() {
                        assert((first + more)[k] == more[k - first.len()]);
                    }
                }
            } else {
                assert(payload =~= body);
            }
        } else {
            assert(inner =~= Seq::empty());
        }
    }
}

} // verus!
