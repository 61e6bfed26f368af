//! Which commands take part in an expansion, and in which order.
use crate::settings;
use crate::settings::{CommandModel, SpokenCommand};
use crate::text;
use vstd::prelude::*;
use vstd::utf8;

verus! {

/// A command takes part where it is enabled, its phrase is not blank, and it
/// stands for at least one character.
pub open spec fn eligible(c: CommandModel) -> bool {
    c.enabled && !text::blank(c.phrase) && c.replacement.len() > 0
}

/// The number of words of a phrase, then its length in bytes.
pub open spec fn weight(c: CommandModel) -> (nat, nat) {
    (text::words(c.phrase).len(), utf8::encode_utf8(c.phrase).len())
}

/// True where `a` is the longer phrase: it has more words, or as many words and
/// more bytes.
pub open spec fn outweighs(a: (nat, nat), b: (nat, nat)) -> bool {
    a.0 > b.0 || (a.0 == b.0 && a.1 > b.1)
}

/// `list` with `c` behind the last command that `c` does not outweigh.
pub open spec fn inserted(list: Seq<CommandModel>, c: CommandModel) -> Seq<CommandModel>
    decreases list.len(),
{
    if list.len() == 0 || !outweighs(weight(c), weight(list.last())) {
        list.push(c)
    } else {
        inserted(list.drop_last(), c).push(list.last())
    }
}

/// The commands that take part, longest phrase first; equally long ones stay in
/// the order of the list.
pub open spec fn active(commands: Seq<CommandModel>) -> Seq<CommandModel>
    decreases commands.len(),
{
    if commands.len() == 0 {
        Seq::empty()
    } else {
        let before = active(commands.drop_last());
        if eligible(commands.last()) {
            inserted(before, commands.last())
        } else {
            before
        }
    }
}

/// Where `c` outweighs exactly the commands from `p` on, `inserted` puts it at
/// `p`.
proof fn lemma_inserted_at(list: Seq<CommandModel>, c: CommandModel, p: int)
    requires
        0 <= p <= list.len(),
        forall|k: int|
            p <= k < list.len() ==> outweighs(weight(c), weight(#[trigger] list[k])),
        p > 0 ==> !outweighs(weight(c), weight(list[p - 1])),
    ensures
        inserted(list, c) == list.insert(p, c),
    decreases list.len(),
{
    if p == list.len() {
        assert(list.insert(p, c) =~= list.push(c));
    } else {
        assert(outweighs(weight(c), weight(list[list.len() - 1])));
        let shorter = list.drop_last();
        assert forall|k: int| p <= k < shorter.len() implies outweighs(
            weight(c),
            weight(#[trigger] shorter[k]),
        ) by {
            assert(shorter[k] == list[k]);
        }
        lemma_inserted_at(shorter, c, p);
        assert(list.insert(p, c) =~= shorter.insert(p, c).push(list.last()));
    }
}

/// The weight of a command's phrase.
pub fn phrase_weight(cmd: &SpokenCommand) -> (r: (usize, usize))
    ensures
        (r.0 as nat, r.1 as nat) == weight(cmd@),
{
    let parts = text::split_words(cmd.phrase.as_str());
    let bytes = cmd.phrase.as_str().as_bytes();
    assert(text::contents(parts@).len() == parts@.len());
    (parts.len(), bytes.len())
}

/// The places in `commands` of the commands that take part, in the order in
/// which they do.
pub fn active_order(commands: &[SpokenCommand]) -> (r: Vec<usize>)
    ensures
        forall|k: int| 0 <= k < r@.len() ==> #[trigger] r@[k] < commands@.len(),
        r@.map_values(|i: usize| commands@[i as int]@) == active(settings::models(commands@)),
{
    let mut r: Vec<usize> = Vec::new();
    let mut weights: Vec<(usize, usize)> = Vec::new();
    let ghost all = settings::models(commands@);
    let ghost pick = |i: usize| commands@[i as int]@;
    assert(all.take(0) =~= Seq::<CommandModel>::empty());
    for i in 0..commands.len()
        invariant
            all == settings::models(commands@),
            pick == (|i: usize| commands@[i as int]@),
            weights@.len() == r@.len(),
            forall|k: int| 0 <= k < r@.len() ==> #[trigger] r@[k] < commands@.len(),
            forall|k: int|
                0 <= k < r@.len() ==> (weights@[k].0 as nat, weights@[k].1 as nat) == weight(
                    pick(#[trigger] r@[k]),
                ),
            r@.map_values(pick) == active(all.take(i as int)),
    {
        let cmd = &commands[i];
        let w = phrase_weight(cmd);
        proof {
            assert(all.take(i + 1).drop_last() =~= all.take(i as int));
            assert(all.take(i + 1).last() == cmd@);
            text::lemma_blank_has_no_words(cmd@.phrase);
        }
        if cmd.enabled && w.0 > 0 && !cmd.replacement.as_str().is_empty() {
            let mut p: usize = r.len();
            while p > 0 && (w.0 > weights[p - 1].0 || (w.0 == weights[p - 1].0 && w.1 > weights[p
                - 1].1))
                invariant
                    p <= r@.len() == weights@.len(),
                    (w.0 as nat, w.1 as nat) == weight(cmd@),
                    forall|k: int|
                        0 <= k < r@.len() ==> (weights@[k].0 as nat, weights@[k].1 as nat)
                            == weight(pick(#[trigger] r@[k])),
                    forall|k: int|
                        p <= k < r@.len() ==> outweighs(
                            weight(cmd@),
                            weight(pick(#[trigger] r@[k])),
                        ),
                decreases p,
            {
                p = p - 1;
            }
            let ghost before = r@;
            proof {
                let list = before.map_values(pick);
                assert forall|k: int| p <= k < list.len() implies outweighs(
                    weight(cmd@),
                    weight(#[trigger] list[k]),
                ) by {
                    assert(list[k] == pick(before[k]));
                }
                if p > 0 {
                    assert(list[p - 1] == pick(before[p - 1]));
                }
                lemma_inserted_at(list, cmd@, p as int);
            }
            r.insert(p, i);
            weights.insert(p, w);
            assert(r@.map_values(pick) =~= before.map_values(pick).insert(p as int, cmd@));
            assert forall|k: int| 0 <= k < r@.len() implies #[trigger] r@[k] < commands@.len() by {
                if k > p {
                    assert(r@[k] == before[k - 1]);
                } else if k < p {
                    assert(r@[k] == before[k]);
                }
            }
            assert forall|k: int| 0 <= k < r@.len() implies (
                weights@[k].0 as nat,
                weights@[k].1 as nat,
            ) == weight(pick(#[trigger] r@[k])) by {
                if k > p {
                    assert(r@[k] == before[k - 1]);
                } else if k < p {
                    assert(r@[k] == before[k]);
                }
            }
        }
    }
    assert(all.take(commands@.len() as int) =~= all);
    r
}

/// Commands of the same weight keep their order, and no eligible one is lost or
/// doubled: for each weight, the active commands of that weight are the eligible
/// ones of that weight in the order of the list.
pub proof fn law_order_is_stable(commands: Seq<CommandModel>, w: (nat, nat))
    ensures
        active(commands).filter(|c: CommandModel| weight(c) == w) == commands.filter(
            |c: CommandModel| eligible(c) && weight(c) == w,
        ),
    decreases commands.len(),
{
    let same = |c: CommandModel| weight(c) == w;
    let wanted = |c: CommandModel| eligible(c) && weight(c) == w;
    reveal(Seq::filter);
    if commands.len() > 0 {
        let c = commands.last();
        law_order_is_stable(commands.drop_last(), w);
        if eligible(c) {
            lemma_filter_inserted(active(commands.drop_last()), c, w);
        }
    }
}

proof fn lemma_filter_inserted(list: Seq<CommandModel>, c: CommandModel, w: (nat, nat))
    ensures
        inserted(list, c).filter(|x: CommandModel| weight(x) == w) == if weight(c) == w {
            list.filter(|x: CommandModel| weight(x) == w).push(c)
        } else {
            list.filter(|x: CommandModel| weight(x) == w)
        },
    decreases list.len(),
{
    reveal(Seq::filter);
    if list.len() == 0 || !outweighs(weight(c), weight(list.last())) {
        assert(list.push(c).drop_last() =~= list);
    } else {
        let shorter = list.drop_last();
        lemma_filter_inserted(shorter, c, w);
        assert(inserted(shorter, c).push(list.last()).drop_last() =~= inserted(shorter, c));
    }
}

/// True where no command is outweighed by one behind it.
pub open spec fn longest_first(list: Seq<CommandModel>) -> bool {
    forall|i: int, j: int|
        0 <= i < j < list.len() ==> !outweighs(
            weight(#[trigger] list[j]),
            weight(#[trigger] list[i]),
        )
}

proof fn lemma_insert_keeps_longest_first(list: Seq<CommandModel>, c: CommandModel)
    requires
        longest_first(list),
    ensures
        longest_first(inserted(list, c)),
        forall|k: int|
            0 <= k < inserted(list, c).len() ==> (#[trigger] inserted(list, c)[k] == c
                || list.contains(inserted(list, c)[k])),
    decreases list.len(),
{
    if list.len() == 0 || !outweighs(weight(c), weight(list.last())) {
        let r = list.push(c);
        assert forall|i: int, j: int| 0 <= i < j < r.len() implies !outweighs(
            weight(#[trigger] r[j]),
            weight(#[trigger] r[i]),
        ) by {
            if j == list.len() && i < list.len() - 1 {
                assert(!outweighs(weight(list[list.len() - 1]), weight(list[i])));
            }
        }
    } else {
        let shorter = list.drop_last();
        lemma_insert_keeps_longest_first(shorter, c);
        let mid = inserted(shorter, c);
        let r = mid.push(list.last());
        assert forall|i: int, j: int| 0 <= i < j < r.len() implies !outweighs(
            weight(#[trigger] r[j]),
            weight(#[trigger] r[i]),
        ) by {
            if j == mid.len() {
                if mid[i] != c {
                    assert(shorter.contains(mid[i]));
                    let k = choose|k: int| 0 <= k < shorter.len() && shorter[k] == mid[i];
                    assert(list[k] == mid[i]);
                    assert(!outweighs(weight(list[list.len() - 1]), weight(list[k])));
                }
            } else {
                assert(r[i] == mid[i] && r[j] == mid[j]);
            }
        }
        assert forall|k: int| 0 <= k < r.len() implies (#[trigger] r[k] == c || list.contains(
            r[k],
        )) by {
            if k < mid.len() {
                if mid[k] != c {
                    let m = choose|m: int| 0 <= m < shorter.len() && shorter[m] == mid[k];
                    assert(list[m] == r[k]);
                }
            } else {
                assert(list[list.len() - 1] == r[k]);
            }
        }
    }
}

/// The longest phrase goes first.
pub proof fn law_longest_phrase_first(commands: Seq<CommandModel>)
    ensures
        longest_first(active(commands)),
    decreases commands.len(),
{
    if commands.len() > 0 {
        law_longest_phrase_first(commands.drop_last());
        if eligible(commands.last()) {
            lemma_insert_keeps_longest_first(active(commands.drop_last()), commands.last());
        }
    }
}

/// True where no two commands have the same weight.
pub open spec fn distinct_weights(list: Seq<CommandModel>) -> bool {
    forall|i: int, j: int|
        0 <= i < j < list.len() ==> weight(#[trigger] list[i]) != weight(#[trigger] list[j])
}

proof fn lemma_inserted_multiset(list: Seq<CommandModel>, c: CommandModel)
    ensures
        inserted(list, c).to_multiset() == list.to_multiset().insert(c),
    decreases list.len(),
{
    broadcast use vstd::seq_lib::group_to_multiset_ensures;

    if list.len() > 0 && outweighs(weight(c), weight(list.last())) {
        let shorter = list.drop_last();
        lemma_inserted_multiset(shorter, c);
        assert(shorter.push(list.last()) =~= list);
        assert(shorter.to_multiset().insert(c).insert(list.last())
            =~= shorter.to_multiset().insert(list.last()).insert(c));
    }
}

proof fn lemma_active_multiset(commands: Seq<CommandModel>)
    ensures
        active(commands).to_multiset() == commands.to_multiset().filter(
            |c: CommandModel| eligible(c),
        ),
    decreases commands.len(),
{
    broadcast use vstd::seq_lib::group_to_multiset_ensures;

    let wanted = |c: CommandModel| eligible(c);
    if commands.len() == 0 {
        assert(active(commands).to_multiset() =~= commands.to_multiset().filter(wanted));
    } else {
        let shorter = commands.drop_last();
        let c = commands.last();
        lemma_active_multiset(shorter);
        lemma_inserted_multiset(active(shorter), c);
        assert(shorter.push(c) =~= commands);
        assert(active(commands).to_multiset() =~= commands.to_multiset().filter(wanted));
    }
}

/// Only listed commands take part, and only eligible ones.
pub proof fn law_active_commands_are_listed(commands: Seq<CommandModel>, k: int)
    requires
        0 <= k < active(commands).len(),
    ensures
        commands.contains(active(commands)[k]),
        eligible(active(commands)[k]),
{
    broadcast use vstd::seq_lib::group_to_multiset_ensures;

    lemma_active_multiset(commands);
    let c = active(commands)[k];
    assert(active(commands).contains(c));
    assert(active(commands).to_multiset().count(c) > 0);
    assert(commands.to_multiset().count(c) > 0);
}

/// Two lists of the same commands, both longest first, are the same where no two
/// commands weigh the same.
proof fn lemma_one_order(x: Seq<CommandModel>, y: Seq<CommandModel>)
    requires
        x.to_multiset() == y.to_multiset(),
        longest_first(x),
        longest_first(y),
        distinct_weights(x),
    ensures
        x == y,
    decreases x.len(),
{
    broadcast use vstd::seq_lib::group_to_multiset_ensures;

    assert(x.to_multiset().len() == x.len());
    assert(y.to_multiset().len() == y.len());
    if x.len() == 0 {
        assert(x =~= y);
    } else {
        let a = x[0];
        let b = y[0];
        assert(x.contains(a) && y.contains(b));
        assert(y.to_multiset().count(a) > 0);
        assert(x.to_multiset().count(b) > 0);
        assert(y.contains(a) && x.contains(b));
        let k = choose|k: int| 0 <= k < x.len() && x[k] == b;
        let m = choose|m: int| 0 <= m < y.len() && y[m] == a;
        if k > 0 {
            assert(!outweighs(weight(x[k]), weight(x[0])));
            assert(weight(x[0]) != weight(x[k]));
            if m > 0 {
                assert(!outweighs(weight(y[m]), weight(y[0])));
            }
        }
        assert(a == b);
        let u = x.drop_first();
        let v = y.drop_first();
        assert(x.remove(0) =~= u);
        assert(y.remove(0) =~= v);
        assert forall|i: int, j: int| 0 <= i < j < u.len() implies !outweighs(
            weight(#[trigger] u[j]),
            weight(#[trigger] u[i]),
        ) by {
            assert(u[i] == x[i + 1] && u[j] == x[j + 1]);
        }
        assert forall|i: int, j: int| 0 <= i < j < v.len() implies !outweighs(
            weight(#[trigger] v[j]),
            weight(#[trigger] v[i]),
        ) by {
            assert(v[i] == y[i + 1] && v[j] == y[j + 1]);
        }
        assert forall|i: int, j: int| 0 <= i < j < u.len() implies weight(#[trigger] u[i])
            != weight(#[trigger] u[j]) by {
            assert(u[i] == x[i + 1] && u[j] == x[j + 1]);
        }
        lemma_one_order(u, v);
        assert(x =~= seq![a] + u);
        assert(y =~= seq![b] + v);
    }
}

/// The order of the list does not matter where no two of the commands that take
/// part have the same weight.
pub proof fn law_list_order_does_not_matter(one: Seq<CommandModel>, other: Seq<CommandModel>)
    requires
        one.to_multiset() == other.to_multiset(),
        distinct_weights(active(one)),
    ensures
        active(one) == active(other),
{
    lemma_active_multiset(one);
    lemma_active_multiset(other);
    law_longest_phrase_first(one);
    law_longest_phrase_first(other);
    lemma_one_order(active(one), active(other));
}

/// A command that is disabled, blank or without a replacement has no part in an
/// expansion: leaving all such commands out of the list changes nothing.
pub proof fn law_ineligible_commands_are_skipped(commands: Seq<CommandModel>)
    ensures
        active(commands) == active(commands.filter(|c: CommandModel| eligible(c))),
    decreases commands.len(),
{
    reveal(Seq::filter);
    if commands.len() > 0 {
        let before = commands.drop_last();
        let kept = before.filter(|c: CommandModel| eligible(c));
        law_ineligible_commands_are_skipped(before);
        assert(kept.push(commands.last()).drop_last() =~= kept);
    }
}

/// The longer phrase goes first: of two commands that take part, the earlier has at
/// least as many words, and where the words are as many, at least as many bytes.
pub proof fn law_more_words_then_more_bytes(commands: Seq<CommandModel>, i: int, j: int)
    requires
        0 <= i < j < active(commands).len(),
    ensures
        text::words(active(commands)[i].phrase).len() >= text::words(
            active(commands)[j].phrase,
        ).len(),
        text::words(active(commands)[i].phrase).len() == text::words(
            active(commands)[j].phrase,
        ).len() ==> utf8::encode_utf8(active(commands)[i].phrase).len() >= utf8::encode_utf8(
            active(commands)[j].phrase,
        ).len(),
{
    law_longest_phrase_first(commands);
    assert(!outweighs(weight(active(commands)[j]), weight(active(commands)[i])));
}

/// Of the commands whose phrases have as many words and as many bytes, those take
/// part that are enabled, have a phrase with something else than white space, and
/// have a replacement: each as often as it is listed, and in the order of the list.
pub proof fn law_who_takes_part(commands: Seq<CommandModel>, words: nat, bytes: nat)
    ensures
        active(commands).filter(
            |c: CommandModel|
                text::words(c.phrase).len() == words && utf8::encode_utf8(c.phrase).len() == bytes,
        ) == commands.filter(
            |c: CommandModel|
                {
                    &&& c.enabled
                    &&& exists|i: int|
                        0 <= i < c.phrase.len() && !text::white_space(#[trigger] c.phrase[i])
                    &&& c.replacement.len() > 0
                    &&& text::words(c.phrase).len() == words
                    &&& utf8::encode_utf8(c.phrase).len() == bytes
                },
        ),
{
    let w = (words, bytes);
    law_order_is_stable(commands, w);
    lemma_filter_by(
        active(commands),
        |c: CommandModel| weight(c) == w,
        |c: CommandModel|
            text::words(c.phrase).len() == words && utf8::encode_utf8(c.phrase).len() == bytes,
    );
    lemma_filter_by(
        commands,
        |c: CommandModel| eligible(c) && weight(c) == w,
        |c: CommandModel|
            {
                &&& c.enabled
                &&& exists|i: int|
                    0 <= i < c.phrase.len() && !text::white_space(#[trigger] c.phrase[i])
                &&& c.replacement.len() > 0
                &&& text::words(c.phrase).len() == words
                &&& utf8::encode_utf8(c.phrase).len() == bytes
            },
    );
}

/// Two tests with the same answers filter alike.
proof fn lemma_filter_by(
    list: Seq<CommandModel>,
    one: spec_fn(CommandModel) -> bool,
    other: spec_fn(CommandModel) -> bool,
)
    requires
        forall|c: CommandModel| #[trigger] one(c) == other(c),
    ensures
        list.filter(one) == list.filter(other),
    decreases list.len(),
{
    reveal(Seq::filter);
    if list.len() > 0 {
        lemma_filter_by(list.drop_last(), one, other);
        assert(one(list.last()) == other(list.last()));
    }
}

/// A phrase weighs by its words first and its bytes next: it is the longer of two
/// where it has more words, or as many words and more bytes, and else it is not.
pub proof fn law_what_phrases_weigh(a: CommandModel, b: CommandModel)
    ensures
        weight(a).0 == text::words(a.phrase).len(),
        weight(a).1 == utf8::encode_utf8(a.phrase).len(),
        text::words(a.phrase).len() > text::words(b.phrase).len() ==> outweighs(
            weight(a),
            weight(b),
        ),
        text::words(a.phrase).len() < text::words(b.phrase).len() ==> !outweighs(
            weight(a),
            weight(b),
        ),
        text::words(a.phrase).len() == text::words(b.phrase).len() ==> (outweighs(
            weight(a),
            weight(b),
        ) <==> utf8::encode_utf8(a.phrase).len() > utf8::encode_utf8(b.phrase).len()),
{
}

} // verus!
