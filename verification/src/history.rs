//! The command history behind the completion popup.

use crate::paths::name_views;
use crate::text::{chars_of, spells};
use vstd::prelude::*;

verus! {

/// Most commands that are kept.
pub const COMMAND_HISTORY_CAP: usize = 10_000;

/// A run of commands without one of them.
pub open spec fn without(commands: Seq<Seq<char>>, command: Seq<char>) -> Seq<Seq<char>>
    decreases commands.len(),
{
    if commands.len() == 0 {
        Seq::empty()
    } else if commands.last() == command {
        without(commands.drop_last(), command)
    } else {
        without(commands.drop_last(), command).push(commands.last())
    }
}

/// The first of a run of commands, as many as are kept.
pub open spec fn capped(commands: Seq<Seq<char>>) -> Seq<Seq<char>> {
    commands.take(
        if commands.len() < COMMAND_HISTORY_CAP {
            commands.len() as int
        } else {
            COMMAND_HISTORY_CAP as int
        },
    )
}

/// The history after one more command, the newest first.
pub open spec fn prepended(commands: Seq<Seq<char>>, command: Seq<char>) -> Seq<Seq<char>> {
    capped(seq![command] + without(commands, command))
}

/// Puts a command at the front of the history, where it stands only once, and
/// drops the oldest ones beyond the cap.
pub fn dedup_prepend(history: &mut Vec<String>, cmd: String)
    ensures
        name_views(final(history)@) == prepended(name_views(old(history)@), cmd@),
{
    let ghost all = name_views(history@);
    let ghost new = cmd@;
    let chars: Vec<char> = chars_of(cmd.as_str());
    let mut old_entries: Vec<String> = Vec::new();
    std::mem::swap(history, &mut old_entries);
    let ghost entries = old_entries@;
    assert(name_views(entries) =~= all);
    history.push(cmd);
    assert(all.take(0) =~= Seq::<Seq<char>>::empty());
    assert(name_views(history@) =~= seq![new] + without(all.take(0), new));
    for entry in it: old_entries
        invariant
            it.seq() == entries,
            name_views(entries) == all,
            chars@ == new,
            name_views(history@) == seq![new] + without(all.take(it.index() as int), new),
    {
        let ghost i = it.index() as int;
        let ghost before = history@;
        proof {
            assert(entry@ == all[i]);
            assert(all.take(i + 1).drop_last() =~= all.take(i));
            assert(all.take(i + 1).last() == all[i]);
        }
        if !spells(&chars, entry.as_str()) {
            history.push(entry);
            assert(name_views(history@) =~= name_views(before).push(all[i]));
            assert(name_views(history@) =~= seq![new] + without(all.take(i + 1), new));
        }
    }
    assert(all.take(all.len() as int) =~= all);
    let ghost full = history@;
    history.truncate(COMMAND_HISTORY_CAP);
    assert(name_views(history@) =~= capped(name_views(full)));
}

proof fn without_drops_only_one(commands: Seq<Seq<char>>, command: Seq<char>)
    ensures
        forall|i: int|
            0 <= i < without(commands, command).len() ==> (#[trigger] without(commands, command)[i])
                != command && commands.contains(without(commands, command)[i]),
        forall|c: Seq<char>|
            commands.contains(c) && c != command ==> #[trigger] without(commands, command).contains(
                c,
            ),
        commands.no_duplicates() ==> without(commands, command).no_duplicates(),
    decreases commands.len(),
{
    if commands.len() > 0 {
        let head = commands.drop_last();
        let rest = without(head, command);
        let out = without(commands, command);
        without_drops_only_one(head, command);
        assert forall|i: int| 0 <= i < out.len() implies (#[trigger] out[i]) != command
            && commands.contains(out[i]) by {
            if i < rest.len() {
                assert(rest[i] == out[i]);
                let j = choose|j: int| 0 <= j < head.len() && head[j] == rest[i];
                assert(commands[j] == out[i]);
            } else {
                assert(commands[commands.len() - 1] == out[i]);
            }
        }
        assert forall|c: Seq<char>| commands.contains(c) && c != command implies #[trigger] out.contains(
            c,
        ) by {
            let j = choose|j: int| 0 <= j < commands.len() && commands[j] == c;
            if j < head.len() {
                assert(head[j] == c);
                assert(head.contains(c));
                assert(rest.contains(c));
                let k = choose|k: int| 0 <= k < rest.len() && rest[k] == c;
                assert(out[k] == c);
            } else {
                assert(out[out.len() - 1] == c);
            }
        }
        if commands.no_duplicates() {
            assert(head.no_duplicates());
            if commands.last() != command {
                assert forall|i: int, j: int|
                    0 <= i < out.len() && 0 <= j < out.len() && i != j implies out[i] != out[j] by {
                    if i < rest.len() && j < rest.len() {
                        assert(rest[i] != rest[j]);
                    } else {
                        let m = if i < rest.len() {
                            i
                        } else {
                            j
                        };
                        assert(rest[m] == out[m]);
                        let k = choose|k: int| 0 <= k < head.len() && head[k] == rest[m];
                        assert(commands[k] == out[m]);
                    }
                }
            }
        }
    }
}

/// The newest command comes first, no command stands twice, and there are no
/// more than the cap.
pub proof fn history_is_deduplicated(commands: Seq<Seq<char>>, command: Seq<char>)
    requires
        commands.no_duplicates(),
    ensures
        prepended(commands, command).no_duplicates(),
        prepended(commands, command).len() <= COMMAND_HISTORY_CAP,
        prepended(commands, command).len() > 0,
        prepended(commands, command)[0] == command,
{
    without_drops_only_one(commands, command);
    let rest = without(commands, command);
    let full = seq![command] + rest;
    let out = prepended(commands, command);
    assert forall|i: int, j: int| 0 <= i < out.len() && 0 <= j < out.len() && i != j implies out[i]
        != out[j] by {
        if i > 0 && j > 0 {
            assert(rest[i - 1] != rest[j - 1]);
        } else if i > 0 {
            assert(rest[i - 1] == out[i]);
        } else {
            assert(rest[j - 1] == out[j]);
        }
    }
}

/// Below the cap, no other command is lost.
pub proof fn history_keeps_other_commands(
    commands: Seq<Seq<char>>,
    command: Seq<char>,
    other: Seq<char>,
)
    requires
        commands.len() < COMMAND_HISTORY_CAP,
        commands.contains(other),
    ensures
        prepended(commands, command).contains(other),
{
    without_is_no_longer(commands, command);
    without_drops_only_one(commands, command);
    let rest = without(commands, command);
    let out = prepended(commands, command);
    if other == command {
        assert(out[0] == other);
    } else {
        assert(rest.contains(other));
        let k = choose|k: int| 0 <= k < rest.len() && rest[k] == other;
        assert(out[k + 1] == other);
    }
}

proof fn without_is_no_longer(commands: Seq<Seq<char>>, command: Seq<char>)
    ensures
        without(commands, command).len() <= commands.len(),
    decreases commands.len(),
{
    if commands.len() > 0 {
        without_is_no_longer(commands.drop_last(), command);
    }
}

proof fn without_is_a_filter(
    commands: Seq<Seq<char>>,
    command: Seq<char>,
    keep: spec_fn(Seq<char>) -> bool,
)
    requires
        forall|c: Seq<char>| #[trigger] keep(c) == (c != command),
    ensures
        without(commands, command) == commands.filter(keep),
    decreases commands.len(),
{
    reveal(Seq::filter);
    if commands.len() > 0 {
        without_is_a_filter(commands.drop_last(), command, keep);
    }
}

/// The history after a command is that command, and then the commands before it
/// other than the same one, in their order, as far as ten thousand go.
pub proof fn command_goes_to_the_front(history: &mut Vec<String>, cmd: String)
    requires
        call_ensures(dedup_prepend, (history, cmd), ()),
    ensures
        ({
            let before = old(history)@.map_values((|s: String| s@));
            let after = final(history)@.map_values((|s: String| s@));
            let all = seq![cmd@] + before.filter((|c: Seq<char>| c != cmd@));
            &&& all.len() <= 10_000 ==> after == all
            &&& all.len() > 10_000 ==> after == all.take(10_000)
        }),
{
    let before = old(history)@.map_values((|s: String| s@));
    let after = final(history)@.map_values((|s: String| s@));
    assert(before =~= name_views(old(history)@));
    assert(after =~= name_views(final(history)@));
    let keep = (|c: Seq<char>| c != cmd@);
    without_is_a_filter(before, cmd@, keep);
    let all = seq![cmd@] + before.filter(keep);
    assert(all =~= seq![cmd@] + without(before, cmd@));
    if all.len() <= 10_000 {
        assert(all.take(all.len() as int) =~= all);
    }
}

} // verus!
