//! Expanding spoken formatting and punctuation commands.
//!
//! "dear john comma new paragraph thanks period" becomes "Dear john,", an empty
//! line and "Thanks.". Only punctuation that a command inserts is spaced; what
//! the transcript already holds, as in "3.5" or "Dr. Smith", is left alone.
use crate::marks;
use crate::order;
use crate::pattern;
use crate::pattern::{MARK_END, MARK_START};
use crate::render;
use crate::settings;
use crate::settings::{AppSettings, CommandModel, SpokenCommand};
use crate::text;
use vstd::prelude::*;

verus! {

/// `s` without the marks in it.
pub open spec fn without_marks(s: Seq<char>) -> Seq<char> {
    s.filter(|c: char| !pattern::is_mark(c))
}

/// `s` with the phrases of the commands marked, one command after the other.
pub open spec fn marked_by(s: Seq<char>, commands: Seq<CommandModel>) -> Seq<char>
    decreases commands.len(),
{
    if commands.len() == 0 {
        s
    } else {
        pattern::marked_up(marked_by(s, commands.drop_last()), commands.last())
    }
}

/// What a transcript becomes.
pub open spec fn expanded(
    transcript: Seq<char>,
    enabled: bool,
    commands: Seq<CommandModel>,
) -> Seq<char> {
    if enabled {
        render::rendered(marked_by(without_marks(transcript), order::active(commands)))
    } else {
        transcript
    }
}

/// True where each command, in its turn, is found exactly where its phrase is
/// said as whole words in the text as it then is.
pub open spec fn whole_words_only(s: Seq<char>, commands: Seq<CommandModel>) -> bool {
    forall|k: int|
        0 <= k < commands.len() && pattern::searchable(#[trigger] commands[k])
            ==> pattern::found_as_whole_words(commands[k], marked_by(s, commands.take(k)))
}

/// True where none of the commands is said in `s`.
pub open spec fn none_said(s: Seq<char>, commands: Seq<CommandModel>) -> bool {
    forall|k: int, i: int|
        0 <= k < commands.len() ==> !#[trigger] pattern::whole_word_from(
            text::words(commands[k].phrase),
            s,
            i,
        )
}

/// `s` with its white space collapsed and its first letter in upper case.
pub open spec fn plainly(s: Seq<char>) -> Seq<char> {
    text::capitalized(text::normalized(s))
}

/// Commands that are not said mark nothing.
proof fn lemma_none_said(s: Seq<char>, commands: Seq<CommandModel>, n: int)
    requires
        whole_words_only(s, commands),
        none_said(s, commands),
        0 <= n <= commands.len(),
    ensures
        marked_by(s, commands.take(n)) == s,
    decreases n,
{
    if n > 0 {
        let c = commands[n - 1];
        lemma_none_said(s, commands, n - 1);
        assert(commands.take(n).drop_last() =~= commands.take(n - 1));
        if pattern::searchable(c) {
            let spans = pattern::places(c, s);
            assert(pattern::found_as_whole_words(c, s));
            if spans.len() > 0 {
                let words = text::words(c.phrase);
                assert(pattern::whole_word_at(words, s, spans[0].0, spans[0].1));
                assert(pattern::whole_word_from(words, s, spans[0].0));
            }
            assert(s.skip(0) =~= s);
        }
    }
}

/// Removes the marks from a transcript.
pub fn strip_marks(transcript: &str) -> (r: String)
    ensures
        r@ == without_marks(transcript@),
        pattern::mark_free(r@),
{
    let chars = text::chars_of(transcript);
    let mut r = String::new();
    let ghost s = transcript@;
    proof {
        reveal(Seq::filter);
        assert(without_marks(s.take(0)) =~= Seq::empty());
    }
    for i in 0..chars.len()
        invariant
            chars@ == s,
            r@ == without_marks(s.take(i as int)),
            pattern::mark_free(r@),
    {
        proof {
            reveal(Seq::filter);
            assert(s.take(i + 1).drop_last() =~= s.take(i as int));
        }
        let c = chars[i];
        if c != MARK_START && c != MARK_END {
            r.push(c);
        }
    }
    assert(s.take(s.len() as int) =~= s);
    r
}

/// Expands the spoken commands in a transcript.
///
/// Each command is found where its phrase is said as whole words, and nowhere else.
/// Where none is said, white space collapses, the first letter becomes a capital,
/// and nothing else changes. No mark is left where phrases are made of ASCII
/// letters and no replacement can be mistaken for one or for a mark.
pub fn expand_commands(transcript: &str, enabled: bool, commands: &[SpokenCommand]) -> (r: String)
    ensures
        r@ == expanded(transcript@, enabled, settings::models(commands@)),
        enabled ==> whole_words_only(
            without_marks(transcript@),
            order::active(settings::models(commands@)),
        ),
        enabled && none_said(
            without_marks(transcript@),
            order::active(settings::models(commands@)),
        ) ==> r@ == plainly(without_marks(transcript@)),
        enabled && marks::all_unmistakable(order::active(settings::models(commands@)))
            ==> pattern::mark_free(r@),
{
    if !enabled {
        return transcript.to_owned();
    }
    let mut s = strip_marks(transcript);
    let order = order::active_order(commands);
    let ghost plain = s@;
    let ghost active = order::active(settings::models(commands@));
    let ghost pick = |i: usize| commands@[i as int]@;
    assert(active.take(0) =~= Seq::empty());
    proof {
        marks::lemma_mark_free_is_well_marked(plain);
    }
    for k in 0..order.len()
        invariant
            pick == (|i: usize| commands@[i as int]@),
            order@.map_values(pick) == active,
            forall|k: int| 0 <= k < order@.len() ==> #[trigger] order@[k] < commands@.len(),
            s@ == marked_by(plain, active.take(k as int)),
            marks::all_unmistakable(active) ==> marks::well_marked(s@),
            forall|m: int|
                0 <= m < k && pattern::searchable(#[trigger] active[m])
                    ==> pattern::found_as_whole_words(active[m], marked_by(plain, active.take(m))),
    {
        let cmd = &commands[order[k]];
        proof {
            assert(active[k as int] == pick(order@[k as int]));
            assert(active.take(k + 1).drop_last() =~= active.take(k as int));
        }
        let ghost before = s@;
        s = pattern::mark_phrase(s.as_str(), cmd);
        proof {
            if marks::all_unmistakable(active) {
                marks::lemma_marking_keeps_well_marked(before, active[k as int]);
            }
        }
    }
    assert(active.take(active.len() as int) =~= active);
    proof {
        if none_said(plain, active) {
            lemma_none_said(plain, active, active.len() as int);
        }
        if marks::all_unmistakable(active) {
            marks::law_well_marked_pieces(s@);
        }
    }
    render::render(s.as_str())
}

/// Expands the spoken commands in a transcript as the settings ask.
///
/// Each command is found where its phrase is said as whole words, and nowhere else.
/// Where none is said, white space collapses, the first letter becomes a capital,
/// and nothing else changes. No mark is left where phrases are made of ASCII
/// letters and no replacement can be mistaken for one or for a mark.
pub fn expand(text: &str, settings: &AppSettings) -> (r: String)
    ensures
        r@ == expanded(
            text@,
            settings.spoken_commands_enabled,
            settings::models(settings.spoken_commands@),
        ),
        settings.spoken_commands_enabled ==> whole_words_only(
            without_marks(text@),
            order::active(settings::models(settings.spoken_commands@)),
        ),
        settings.spoken_commands_enabled && none_said(
            without_marks(text@),
            order::active(settings::models(settings.spoken_commands@)),
        ) ==> r@ == plainly(without_marks(text@)),
        settings.spoken_commands_enabled && marks::all_unmistakable(
            order::active(settings::models(settings.spoken_commands@)),
        ) ==> pattern::mark_free(r@),
{
    expand_commands(text, settings.spoken_commands_enabled, settings.spoken_commands.as_slice())
}

/// Commands that are disabled, blank or without a replacement change nothing:
/// leaving them out of the list gives the same text.
pub proof fn law_skipped_commands(transcript: Seq<char>, commands: Seq<CommandModel>)
    ensures
        expanded(transcript, true, commands) == expanded(
            transcript,
            true,
            commands.filter(|c: CommandModel| order::eligible(c)),
        ),
{
    order::law_ineligible_commands_are_skipped(commands);
}

/// The order in which commands are listed does not matter where no two of those
/// that take part have phrases of the same weight.
pub proof fn law_list_order(
    transcript: Seq<char>,
    one: Seq<CommandModel>,
    other: Seq<CommandModel>,
)
    requires
        one.to_multiset() == other.to_multiset(),
        order::distinct_weights(order::active(one)),
    ensures
        expanded(transcript, true, one) == expanded(transcript, true, other),
{
    order::law_list_order_does_not_matter(one, other);
}

/// Marks that a transcript holds by accident change nothing.
pub proof fn law_stray_marks(transcript: Seq<char>, commands: Seq<CommandModel>)
    ensures
        expanded(transcript, true, commands) == expanded(
            without_marks(transcript),
            true,
            commands,
        ),
{
    lemma_without_marks_twice(transcript);
}

/// A transcript that holds no mark is expanded as it is.
pub proof fn law_transcript_without_marks(transcript: Seq<char>)
    requires
        pattern::mark_free(transcript),
    ensures
        without_marks(transcript) == transcript,
    decreases transcript.len(),
{
    reveal(Seq::filter);
    if transcript.len() == 0 {
        assert(without_marks(transcript) =~= transcript);
    } else {
        let before = transcript.drop_last();
        assert(!pattern::is_mark(transcript[transcript.len() - 1]));
        assert forall|i: int| 0 <= i < before.len() implies !pattern::is_mark(
            #[trigger] before[i],
        ) by {
            assert(before[i] == transcript[i]);
        }
        law_transcript_without_marks(before);
        assert(before.push(transcript.last()) =~= transcript);
    }
}

proof fn lemma_without_marks_twice(s: Seq<char>)
    ensures
        without_marks(without_marks(s)) == without_marks(s),
    decreases s.len(),
{
    reveal(Seq::filter);
    if s.len() > 0 {
        let before = without_marks(s.drop_last());
        lemma_without_marks_twice(s.drop_last());
        assert(before.push(s.last()).drop_last() =~= before);
    }
}

/// Expanded text does not start with white space, nor end with a space or a tab.
pub proof fn law_expanded_edges(transcript: Seq<char>, commands: Seq<CommandModel>)
    ensures
        text::clean_edges(expanded(transcript, true, commands)),
{
    render::law_clean_edges(marked_by(without_marks(transcript), order::active(commands)));
}

/// Removing marks goes character by character: a mark goes, anything else stays.
pub proof fn law_removing_marks_in_turn(a: Seq<char>, c: char)
    ensures
        without_marks(Seq::<char>::empty()).len() == 0,
        c == '\u{E000}' || c == '\u{E001}' ==> without_marks(a + seq![c]) == without_marks(a),
        c != '\u{E000}' && c != '\u{E001}' ==> without_marks(a + seq![c]) == without_marks(a)
            + seq![c],
{
    reveal(Seq::filter);
    let all = a + seq![c];
    assert(all.drop_last() =~= a);
    assert(all.last() == c);
}

/// Marking the commands of two lists one after the other is marking those of the
/// whole; marking one command is marking its phrase, and none changes nothing.
pub proof fn law_marking_in_turn(
    s: Seq<char>,
    c: CommandModel,
    first: Seq<CommandModel>,
    second: Seq<CommandModel>,
)
    ensures
        marked_by(s, Seq::<CommandModel>::empty()) == s,
        marked_by(s, seq![c]) == pattern::marked_up(s, c),
        marked_by(s, first + second) == marked_by(marked_by(s, first), second),
    decreases second.len(),
{
    assert(seq![c].drop_last() =~= Seq::empty());
    assert(marked_by(s, seq![c].drop_last()) == s);
    if second.len() == 0 {
        assert(first + second =~= first);
    } else {
        law_marking_in_turn(s, c, first, second.drop_last());
        assert((first + second).drop_last() =~= first + second.drop_last());
    }
}

/// A transcript is left alone where commands are switched off. Where they are on, a
/// mark in it is as good as none; without commands it is rendered as it is; and with
/// commands, marking the first of those that take part and then the others, and
/// rendering what comes of it, gives the text.
pub proof fn law_what_expanding_does(
    a: Seq<char>,
    commands: Seq<CommandModel>,
    first: CommandModel,
    others: Seq<CommandModel>,
)
    requires
        forall|i: int|
            0 <= i < a.len() ==> #[trigger] a[i] != '\u{E000}' && a[i] != '\u{E001}',
    ensures
        expanded(a, false, commands) == a,
        order::active(commands).len() == 0 ==> expanded(a, true, commands) == render::rendered(a),
        order::active(commands) == seq![first] + others ==> expanded(a, true, commands)
            == render::rendered(marked_by(pattern::marked_up(a, first), others)),
{
    law_transcript_without_marks(a);
    law_marking_in_turn(a, first, seq![first], others);
}

} // verus!
