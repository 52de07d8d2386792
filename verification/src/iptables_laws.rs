//! What a whole task of the packet filter blocker comes to, whatever the replies are.

use vstd::prelude::*;
use vstd::multiset::Multiset;
use crate::command::CommandView;
use crate::text::texts;
use crate::iptables::found;
use crate::iptables::{
    absorb, append_rule, delete_rule, lemma_absorb, BlockerView, Reply, RequestView, Task,
};

verus! {

/// The blocker after a list of replies.
pub open spec fn play(start: BlockerView, replies: Seq<Reply>) -> BlockerView
    decreases replies.len(),
{
    if replies.len() == 0 {
        start
    } else {
        play(start, replies.drop_last()).after(replies.last())
    }
}

/// The answers to the lookups that were asked for, in order.
pub open spec fn answers(start: BlockerView, replies: Seq<Reply>) -> Seq<Seq<Seq<char>>>
    decreases replies.len(),
{
    if replies.len() == 0 {
        Seq::empty()
    } else {
        let init = answers(start, replies.drop_last());
        match replies.last() {
            Reply::Resolved(ips) => if play(start, replies.drop_last()).request() is Resolve {
                init.push(ips)
            } else {
                init
            },
            Reply::Finished(_) => init,
        }
    }
}

/// The commands that were asked for and run, in order, each with how it ended.
pub open spec fn ran(start: BlockerView, replies: Seq<Reply>) -> Seq<(CommandView, Option<bool>)>
    decreases replies.len(),
{
    if replies.len() == 0 {
        Seq::empty()
    } else {
        let init = ran(start, replies.drop_last());
        match replies.last() {
            Reply::Resolved(_) => init,
            Reply::Finished(outcome) => match play(start, replies.drop_last()).request() {
                RequestView::Run(command) => init.push((command, outcome)),
                _ => init,
            },
        }
    }
}

/// `base` with the addresses of all answers absorbed, one answer after the other.
pub open spec fn absorb_all(base: Seq<Seq<char>>, lists: Seq<Seq<Seq<char>>>) -> Seq<Seq<char>>
    decreases lists.len(),
{
    if lists.len() == 0 {
        base
    } else {
        absorb(absorb_all(base, lists.drop_last()), lists.last())
    }
}

/// All answers one behind the other.
pub open spec fn concat(lists: Seq<Seq<Seq<char>>>) -> Seq<Seq<char>>
    decreases lists.len(),
{
    if lists.len() == 0 {
        Seq::empty()
    } else {
        concat(lists.drop_last()) + lists.last()
    }
}

/// Every blocker that replies lead to is well formed, and has the domains and the task that it
/// started with.
pub proof fn law_replies_keep_form(start: BlockerView, replies: Seq<Reply>)
    requires
        start.wf(),
    ensures
        play(start, replies).wf(),
        play(start, replies).domains == start.domains,
        play(start, replies).task == start.task,
    decreases replies.len(),
{
    if replies.len() > 0 {
        law_replies_keep_form(start, replies.drop_last());
        let s = play(start, replies.drop_last());
        let e = s.after(replies.last());
        if s.task == Task::Block && s.expects(replies.last()) {
            match replies.last() {
                Reply::Resolved(ips) => {
                    lemma_absorb(s.blocked, ips);
                    assert(s.pending.len() == 0);
                    assert(e.blocked + e.pending =~= absorb(s.blocked, ips));
                },
                Reply::Finished(_) => {
                    assert(e.blocked + e.pending =~= s.blocked + s.pending);
                    let all = s.blocked + s.pending;
                    assert forall|i: int, j: int| 0 <= i < j < e.blocked.len() implies e.blocked[i]
                        != e.blocked[j] by {
                        assert(all[i] == e.blocked[i]);
                        assert(all[j] == e.blocked[j]);
                    }
                },
            }
        }
    }
}

/// Blocking adds one rule for each address found that was not blocked before, in the order in which
/// they were found, and no other. The addresses that wait and those that are blocked are, at every
/// moment, those blocked before together with all that were found.
pub proof fn law_block_adds_each_address_once(start: BlockerView, replies: Seq<Reply>)
    requires
        start.wf(),
        start == start.begun(Task::Block),
    ensures
        ({
            let end = play(start, replies);
            &&& end.blocked + end.pending == absorb_all(start.blocked, answers(start, replies))
            &&& answers(start, replies).len() == end.next
            &&& start.blocked.len() <= end.blocked.len()
            &&& end.blocked.take(start.blocked.len() as int) == start.blocked
            &&& ran(start, replies).len() == end.blocked.len() - start.blocked.len()
            &&& forall|i: int|
                0 <= i < ran(start, replies).len() ==> (#[trigger] ran(start, replies)[i]).0
                    == append_rule(end.blocked[start.blocked.len() + i])
        }),
    decreases replies.len(),
{
    let end = play(start, replies);
    if replies.len() == 0 {
        assert(start.blocked + start.pending =~= start.blocked);
        assert(start.blocked.take(start.blocked.len() as int) =~= start.blocked);
    } else {
        let front = replies.drop_last();
        law_block_adds_each_address_once(start, front);
        law_replies_keep_form(start, front);
        let s = play(start, front);
        let n = start.blocked.len() as int;
        if s.expects(replies.last()) {
            match replies.last() {
                Reply::Resolved(ips) => {
                    lemma_absorb(s.blocked, ips);
                    assert(s.blocked + s.pending =~= s.blocked);
                    assert(end.blocked + end.pending =~= absorb(s.blocked, ips));
                    assert(answers(start, replies).drop_last() =~= answers(start, front));
                },
                Reply::Finished(_) => {
                    assert(end.blocked + end.pending =~= s.blocked + s.pending);
                    assert(end.blocked.take(n) =~= s.blocked.take(n));
                    assert forall|i: int| 0 <= i < ran(start, replies).len() implies (
                    #[trigger] ran(start, replies)[i]).0 == append_rule(end.blocked[n + i]) by {
                        if i < ran(start, front).len() {
                            assert(ran(start, replies)[i] == ran(start, front)[i]);
                        }
                    }
                },
            }
        }
    }
}

/// Absorbing one list after the other holds every address of each.
proof fn lemma_absorb_all(base: Seq<Seq<char>>, lists: Seq<Seq<Seq<char>>>, k: int, ip: Seq<char>)
    requires
        0 <= k < lists.len(),
        lists[k].contains(ip),
    ensures
        absorb_all(base, lists).contains(ip),
    decreases lists.len(),
{
    let init = absorb_all(base, lists.drop_last());
    lemma_absorb(init, lists.last());
    if k == lists.len() - 1 {
        let j = choose|j: int| 0 <= j < lists[k].len() && lists[k][j] == ip;
        assert(lists.last()[j] == ip);
    } else {
        lemma_absorb_all(base, lists.drop_last(), k, ip);
        let j = choose|j: int| 0 <= j < init.len() && init[j] == ip;
        assert(absorb(init, lists.last()).take(init.len() as int)[j] == ip);
        assert(absorb(init, lists.last())[j] == ip);
    }
}

/// When a blocking task is done, every domain has been looked up and every address that was found
/// is blocked, each once.
pub proof fn law_block_leaves_nothing_out(start: BlockerView, replies: Seq<Reply>)
    requires
        start.wf(),
        start == start.begun(Task::Block),
        play(start, replies).request() is Done,
    ensures
        answers(start, replies).len() == start.domains.len(),
        play(start, replies).blocked.no_duplicates(),
        forall|k: int, ip: Seq<char>|
            0 <= k < answers(start, replies).len() && #[trigger] answers(start, replies)[k].contains(
                ip,
            ) ==> play(start, replies).blocked.contains(ip),
{
    law_block_adds_each_address_once(start, replies);
    law_replies_keep_form(start, replies);
    let end = play(start, replies);
    assert(end.blocked + end.pending =~= end.blocked);
    assert forall|k: int, ip: Seq<char>|
        0 <= k < answers(start, replies).len() && #[trigger] answers(start, replies)[k].contains(
            ip,
        ) implies end.blocked.contains(ip) by {
        lemma_absorb_all(start.blocked, answers(start, replies), k, ip);
    }
}

/// After a blocking task that started with nothing blocked, the commands of an unblocking delete
/// the rules that were added: one for one, in the same order.
pub proof fn law_unblock_deletes_what_block_added(start: BlockerView, replies: Seq<Reply>)
    requires
        start.wf(),
        start == start.begun(Task::Block),
        start.blocked.len() == 0,
    ensures
        ({
            let blocked = play(start, replies).blocked;
            let deletions = blocked.map_values(|ip: Seq<char>| delete_rule(ip));
            &&& deletions.len() == ran(start, replies).len()
            &&& forall|i: int|
                0 <= i < deletions.len() ==> {
                    &&& (#[trigger] ran(start, replies)[i]).0 == append_rule(blocked[i])
                    &&& deletions[i] == delete_rule(blocked[i])
                }
        }),
{
    law_block_adds_each_address_once(start, replies);
    let blocked = play(start, replies).blocked;
    assert forall|i: int| 0 <= i < blocked.len() implies (#[trigger] ran(start, replies)[i]).0
        == append_rule(blocked[i]) by {
        assert(blocked[start.blocked.len() + i] == blocked[i]);
    }
}

/// The addresses whose deletion failed, in order.
pub open spec fn exhausted(start: BlockerView, replies: Seq<Reply>) -> Seq<Seq<char>>
    decreases replies.len(),
{
    if replies.len() == 0 {
        Seq::empty()
    } else {
        let init = exhausted(start, replies.drop_last());
        let s = play(start, replies.drop_last());
        match replies.last() {
            Reply::Resolved(_) => init,
            Reply::Finished(outcome) => if s.request() is Run && outcome != Some(true) {
                init.push(s.pending[0])
            } else {
                init
            },
        }
    }
}

/// Flushing deletes rules of every address found, in order, until a deletion fails: the addresses
/// that are exhausted and those that wait are, at every moment, all that were found. It adds no
/// rule and blocks no address.
pub proof fn law_flush_exhausts_every_address(start: BlockerView, replies: Seq<Reply>)
    requires
        start.wf(),
        start == start.begun(Task::Flush),
    ensures
        ({
            let end = play(start, replies);
            &&& exhausted(start, replies) + end.pending == concat(answers(start, replies))
            &&& answers(start, replies).len() == end.next
            &&& end.blocked == start.blocked
        }),
    decreases replies.len(),
{
    let end = play(start, replies);
    if replies.len() == 0 {
        assert(exhausted(start, replies) + end.pending =~= Seq::<Seq<char>>::empty());
    } else {
        let front = replies.drop_last();
        law_flush_exhausts_every_address(start, front);
        law_replies_keep_form(start, front);
        let s = play(start, front);
        if s.expects(replies.last()) {
            match replies.last() {
                Reply::Resolved(ips) => {
                    assert(answers(start, replies).drop_last() =~= answers(start, front));
                    assert(exhausted(start, front) + s.pending =~= exhausted(start, front));
                },
                Reply::Finished(outcome) => {
                    assert(exhausted(start, replies) + end.pending =~= exhausted(start, front)
                        + s.pending);
                },
            }
        }
    }
}

/// While flushing, every command deletes a rule, and one that succeeded is repeated.
pub proof fn law_flush_repeats_until_failure(start: BlockerView, replies: Seq<Reply>)
    requires
        start.wf(),
        start == start.begun(Task::Flush),
    ensures
        ({
            let done = ran(start, replies);
            &&& forall|i: int|
                0 <= i < done.len() ==> exists|ip: Seq<char>|
                    (#[trigger] done[i]).0 == #[trigger] delete_rule(ip)
            &&& forall|i: int|
                0 <= i < done.len() - 1 && (#[trigger] done[i]).1 == Some(true) ==> done[i + 1].0
                    == done[i].0
            &&& done.len() > 0 && done.last().1 == Some(true) ==> play(start, replies).request()
                == RequestView::Run(done.last().0)
        }),
    decreases replies.len(),
{
    if replies.len() > 0 {
        let front = replies.drop_last();
        law_flush_repeats_until_failure(start, front);
        law_replies_keep_form(start, front);
        let s = play(start, front);
        let before = ran(start, front);
        let done = ran(start, replies);
        match replies.last() {
            Reply::Resolved(_) => {},
            Reply::Finished(outcome) => {
                if s.request() is Run {
                    assert(done.drop_last() =~= before);
                    assert(done.last().0 == delete_rule(s.pending[0]));
                    assert forall|i: int| 0 <= i < done.len() implies exists|ip: Seq<char>|
                        (#[trigger] done[i]).0 == #[trigger] delete_rule(ip) by {
                        if i < before.len() {
                            assert(done[i] == before[i]);
                        } else {
                            assert(done[i].0 == delete_rule(s.pending[0]));
                        }
                    }
                    assert forall|i: int|
                        0 <= i < done.len() - 1 && (#[trigger] done[i]).1 == Some(
                            true,
                        ) implies done[i + 1].0 == done[i].0 by {
                        assert(done[i] == before[i]);
                        if i + 1 < before.len() {
                            assert(done[i + 1] == before[i + 1]);
                        }
                    }
                }
            },
        }
    }
}

/// Absorbing lists of addresses that are all there changes nothing.
proof fn lemma_absorb_known(base: Seq<Seq<char>>, more: Seq<Seq<char>>)
    requires
        forall|k: int| 0 <= k < more.len() ==> base.contains(#[trigger] more[k]),
    ensures
        absorb(base, more) == base,
    decreases more.len(),
{
    if more.len() > 0 {
        let front = more.drop_last();
        assert forall|k: int| 0 <= k < front.len() implies base.contains(#[trigger] front[k]) by {
            assert(front[k] == more[k]);
        }
        lemma_absorb_known(base, front);
        assert(base.contains(more[more.len() - 1]));
    }
}

/// The same of several lists.
proof fn lemma_absorb_all_known(base: Seq<Seq<char>>, lists: Seq<Seq<Seq<char>>>)
    requires
        forall|k: int, ip: Seq<char>|
            0 <= k < lists.len() && #[trigger] lists[k].contains(ip) ==> base.contains(ip),
    ensures
        absorb_all(base, lists) == base,
    decreases lists.len(),
{
    if lists.len() > 0 {
        let front = lists.drop_last();
        assert forall|k: int, ip: Seq<char>|
            0 <= k < front.len() && #[trigger] front[k].contains(ip) implies base.contains(ip) by {
            assert(lists[k].contains(ip));
        }
        lemma_absorb_all_known(base, front);
        let last = lists[lists.len() - 1];
        assert forall|j: int| 0 <= j < last.len() implies base.contains(#[trigger] last[j]) by {
            assert(lists[lists.len() - 1].contains(last[j]));
        }
        lemma_absorb_known(base, last);
    }
}

/// Blocking again, where every address that is found is blocked already, runs no command and
/// changes nothing of what is blocked.
pub proof fn law_blocking_again_adds_nothing(start: BlockerView, replies: Seq<Reply>)
    requires
        start.wf(),
        start == start.begun(Task::Block),
        forall|k: int, ip: Seq<char>|
            0 <= k < answers(start, replies).len() && #[trigger] answers(start, replies)[k].contains(
                ip,
            ) ==> start.blocked.contains(ip),
    ensures
        play(start, replies).blocked == start.blocked,
        play(start, replies).pending.len() == 0,
        ran(start, replies).len() == 0,
{
    law_block_adds_each_address_once(start, replies);
    lemma_absorb_all_known(start.blocked, answers(start, replies));
    let end = play(start, replies);
    assert((end.blocked + end.pending).len() == start.blocked.len());
    assert(end.blocked + end.pending =~= end.blocked);
}

/// When a flushing task is done, every domain has been looked up, and for every address that was
/// found a deletion has failed or could not be started.
pub proof fn law_flush_leaves_nothing_out(start: BlockerView, replies: Seq<Reply>)
    requires
        start.wf(),
        start == start.begun(Task::Flush),
        play(start, replies).request() is Done,
    ensures
        answers(start, replies).len() == start.domains.len(),
        exhausted(start, replies) == concat(answers(start, replies)),
{
    law_flush_exhausts_every_address(start, replies);
    law_replies_keep_form(start, replies);
    assert(exhausted(start, replies) + play(start, replies).pending =~= exhausted(start, replies));
}

/// The rules of the packet filter after a command: one that adds a rule or deletes one and ends in
/// success does so, any other changes nothing. A table is the addresses of its rules, each as often
/// as it has one.
pub open spec fn rules_after_one(
    rules: Multiset<Seq<char>>,
    command: CommandView,
    outcome: Option<bool>,
) -> Multiset<Seq<char>> {
    let ip = command.args[3];
    if outcome != Some(true) {
        rules
    } else if command == append_rule(ip) {
        rules.insert(ip)
    } else if command == delete_rule(ip) {
        rules.remove(ip)
    } else {
        rules
    }
}

/// The rules of the packet filter after a list of commands.
pub open spec fn rules_after(
    rules: Multiset<Seq<char>>,
    done: Seq<(CommandView, Option<bool>)>,
) -> Multiset<Seq<char>>
    decreases done.len(),
{
    if done.len() == 0 {
        rules
    } else {
        rules_after_one(rules_after(rules, done.drop_last()), done.last().0, done.last().1)
    }
}

/// Whether every deletion ended in success exactly where there was a rule to delete.
pub open spec fn deletions_are_true(
    rules: Multiset<Seq<char>>,
    done: Seq<(CommandView, Option<bool>)>,
) -> bool
    decreases done.len(),
{
    done.len() > 0 ==> {
        let (command, outcome) = done.last();
        let ip = command.args[3];
        &&& deletions_are_true(rules, done.drop_last())
        &&& command == delete_rule(ip) ==> (outcome == Some(true) <==> rules_after(
            rules,
            done.drop_last(),
        ).count(ip) > 0)
    }
}

/// The commands name their address and differ in their action.
proof fn lemma_commands(ip: Seq<char>, other: Seq<char>)
    ensures
        append_rule(ip).args[3] == ip,
        delete_rule(ip).args[3] == ip,
        append_rule(ip) != delete_rule(other),
{
    reveal_strlit("-A");
    reveal_strlit("-D");
    assert(append_rule(ip).args[0] == "-A"@);
    assert(delete_rule(other).args[0] == "-D"@);
    assert("-A"@[1] != "-D"@[1]);
}

/// While flushing, no rule of an exhausted address is there, and the rules of addresses that were
/// not found are as they were.
proof fn lemma_flush_rules(
    start: BlockerView,
    replies: Seq<Reply>,
    rules: Multiset<Seq<char>>,
    ip: Seq<char>,
)
    requires
        start.wf(),
        start == start.begun(Task::Flush),
        deletions_are_true(rules, ran(start, replies)),
    ensures
        exhausted(start, replies).contains(ip) ==> rules_after(rules, ran(start, replies)).count(ip)
            == 0,
        !concat(answers(start, replies)).contains(ip) ==> rules_after(
            rules,
            ran(start, replies),
        ).count(ip) == rules.count(ip),
    decreases replies.len(),
{
    if replies.len() > 0 {
        let front = replies.drop_last();
        let s = play(start, front);
        let before = ran(start, front);
        let done = ran(start, replies);
        law_replies_keep_form(start, front);
        law_flush_exhausts_every_address(start, front);
        match replies.last() {
            Reply::Resolved(ips) => {
                lemma_flush_rules(start, front, rules, ip);
                if s.request() is Resolve {
                    let known = concat(answers(start, front));
                    assert(answers(start, replies).drop_last() =~= answers(start, front));
                    assert(concat(answers(start, replies)) == known + ips);
                    if known.contains(ip) {
                        let j = choose|j: int| 0 <= j < known.len() && known[j] == ip;
                        assert((known + ips)[j] == ip);
                    }
                }
            },
            Reply::Finished(outcome) => {
                if s.request() is Run {
                    let target = s.pending[0];
                    lemma_commands(target, target);
                    assert(done.drop_last() =~= before);
                    assert(done.last() == (delete_rule(target), outcome));
                    lemma_flush_rules(start, front, rules, ip);
                    let gone = exhausted(start, front);
                    let all = gone + s.pending;
                    assert(all[gone.len() as int] == target);
                    assert(all.contains(target));
                    if exhausted(start, replies).contains(ip) && !gone.contains(ip) {
                        let now = exhausted(start, replies);
                        let j = choose|j: int| 0 <= j < now.len() && now[j] == ip;
                        if j < gone.len() {
                            assert(gone[j] == ip);
                        }
                        assert(ip == target);
                    }
                } else {
                    lemma_flush_rules(start, front, rules, ip);
                }
            },
        }
    }
}

/// When a flushing task is done, no rule of an address that was found is left, however many there
/// were, and the rules of all other addresses are as they were. The law takes it that deletions end
/// in success exactly where there is a rule to delete.
pub proof fn law_flush_clears_the_rules(
    start: BlockerView,
    replies: Seq<Reply>,
    rules: Multiset<Seq<char>>,
)
    requires
        start.wf(),
        start == start.begun(Task::Flush),
        play(start, replies).request() is Done,
        deletions_are_true(rules, ran(start, replies)),
    ensures
        forall|ip: Seq<char>| #[trigger]
            rules_after(rules, ran(start, replies)).count(ip) == (if concat(
                answers(start, replies),
            ).contains(ip) {
                0
            } else {
                rules.count(ip)
            }),
{
    law_flush_leaves_nothing_out(start, replies);
    assert forall|ip: Seq<char>| #[trigger]
        rules_after(rules, ran(start, replies)).count(ip) == (if concat(
            answers(start, replies),
        ).contains(ip) {
            0
        } else {
            rules.count(ip)
        }) by {
        lemma_flush_rules(start, replies, rules, ip);
    }
}

/// Commands that add one rule for each address, all with success, add these addresses.
proof fn lemma_added_rules(
    rules: Multiset<Seq<char>>,
    ips: Seq<Seq<char>>,
    done: Seq<(CommandView, Option<bool>)>,
)
    requires
        done.len() == ips.len(),
        forall|i: int|
            0 <= i < done.len() ==> #[trigger] done[i] == (append_rule(ips[i]), Some(true)),
    ensures
        rules_after(rules, done) == rules.add(ips.to_multiset()),
    decreases done.len(),
{
    broadcast use vstd::seq_lib::group_to_multiset_ensures;

    if done.len() == 0 {
        assert(ips =~= Seq::<Seq<char>>::empty());
        assert(rules =~= rules.add(ips.to_multiset()));
    } else {
        let front = done.drop_last();
        let ip = ips.last();
        assert forall|i: int| 0 <= i < front.len() implies #[trigger] front[i] == (
            append_rule(ips.drop_last()[i]),
            Some(true),
        ) by {
            assert(front[i] == done[i]);
        }
        lemma_added_rules(rules, ips.drop_last(), front);
        lemma_commands(ip, ip);
        assert(done[done.len() - 1] == (append_rule(ip), Some(true)));
        assert(ips.drop_last().push(ip) =~= ips);
        assert(rules_after(rules, done) =~= rules.add(ips.to_multiset()));
    }
}

/// Commands that delete one rule for each address, all with success, from a table that has these,
/// delete them and nothing else.
proof fn lemma_deleted_rules(
    rest: Multiset<Seq<char>>,
    ips: Seq<Seq<char>>,
    done: Seq<(CommandView, Option<bool>)>,
    n: int,
)
    requires
        0 <= n <= ips.len(),
        done.len() == n,
        forall|i: int|
            0 <= i < done.len() ==> #[trigger] done[i] == (delete_rule(ips[i]), Some(true)),
    ensures
        rules_after(rest.add(ips.to_multiset()), done) == rest.add(ips.skip(n).to_multiset()),
        deletions_are_true(rest.add(ips.to_multiset()), done),
    decreases n,
{
    broadcast use vstd::seq_lib::group_to_multiset_ensures;

    if n == 0 {
        assert(ips.skip(0) =~= ips);
    } else {
        let front = done.drop_last();
        let ip = ips[n - 1];
        assert forall|i: int| 0 <= i < front.len() implies #[trigger] front[i] == (
            delete_rule(ips[i]),
            Some(true),
        ) by {
            assert(front[i] == done[i]);
        }
        lemma_deleted_rules(rest, ips, front, n - 1);
        lemma_commands(ip, ip);
        assert(done[n - 1] == (delete_rule(ip), Some(true)));
        let left = ips.skip(n - 1);
        assert(left[0] == ip);
        assert(left.remove(0) =~= ips.skip(n));
        assert(left.to_multiset().remove(ip) =~= ips.skip(n).to_multiset());
        assert(left.contains(ip));
        assert(left.to_multiset().count(ip) > 0);
        assert(rules_after(rest.add(ips.to_multiset()), done) =~= rest.add(
            ips.skip(n).to_multiset(),
        ));
    }
}

/// Blocking and then unblocking leaves the rules of the packet filter as they were, rules of others
/// for the same addresses included, and every deletion has a rule to delete. The law leaves out
/// blocking with addresses blocked before, whose rules are deleted too, and rules that could not
/// be added.
pub proof fn law_unblock_restores_the_rules(
    start: BlockerView,
    replies: Seq<Reply>,
    rules: Multiset<Seq<char>>,
)
    requires
        start.wf(),
        start == start.begun(Task::Block),
        start.blocked.len() == 0,
        forall|i: int|
            0 <= i < ran(start, replies).len() ==> (#[trigger] ran(start, replies)[i]).1 == Some(
                true,
            ),
    ensures
        ({
            let blocked = play(start, replies).blocked;
            let added = rules_after(rules, ran(start, replies));
            let deletions = blocked.map_values(|ip: Seq<char>| (delete_rule(ip), Some(true)));
            &&& added == rules.add(blocked.to_multiset())
            &&& rules_after(added, deletions) == rules
            &&& deletions_are_true(added, deletions)
        }),
{
    broadcast use vstd::seq_lib::group_to_multiset_ensures;

    law_unblock_deletes_what_block_added(start, replies);
    let blocked = play(start, replies).blocked;
    let done = ran(start, replies);
    let deletions = blocked.map_values(|ip: Seq<char>| (delete_rule(ip), Some(true)));
    assert forall|i: int| 0 <= i < done.len() implies #[trigger] done[i] == (
        append_rule(blocked[i]),
        Some(true),
    ) by {}
    lemma_added_rules(rules, blocked, done);
    lemma_deleted_rules(rules, blocked, deletions, blocked.len() as int);
    assert(blocked.skip(blocked.len() as int) =~= Seq::<Seq<char>>::empty());
    assert(rules.add(blocked.skip(blocked.len() as int).to_multiset()) =~= rules);
}

/// The domains that were looked up, in order.
pub open spec fn asked(start: BlockerView, replies: Seq<Reply>) -> Seq<Seq<char>>
    decreases replies.len(),
{
    if replies.len() == 0 {
        Seq::empty()
    } else {
        let init = asked(start, replies.drop_last());
        match (replies.last(), play(start, replies.drop_last()).request()) {
            (Reply::Resolved(_), RequestView::Resolve(domain)) => init.push(domain),
            _ => init,
        }
    }
}

/// Starting a task forgets nothing that is configured or blocked, and begins with the first domain.
pub proof fn law_a_task_starts_over(s: BlockerView, task: Task)
    requires
        s.wf(),
    ensures
        s.begun(task).wf(),
        s.begun(task).domains == s.domains,
        s.begun(task).blocked == s.blocked,
        s.begun(task).task == task,
        s.domains.len() > 0 ==> s.begun(task).request() == RequestView::Resolve(s.domains[0]),
        s.domains.len() == 0 ==> s.begun(task).request() is Done,
{
    assert(s.begun(task).blocked + s.begun(task).pending =~= s.blocked);
}

/// A task looks the configured domains up one after the other, from the first on, and is done only
/// when each has been: the domains that it has asked for are, at every moment, the first ones of the
/// list, and in the end the whole list.
pub proof fn law_every_domain_is_looked_up(s: BlockerView, task: Task, replies: Seq<Reply>)
    requires
        s.wf(),
    ensures
        ({
            let names = asked(s.begun(task), replies);
            &&& names.len() <= s.domains.len()
            &&& names.len() == answers(s.begun(task), replies).len()
            &&& forall|k: int| 0 <= k < names.len() ==> #[trigger] names[k] == s.domains[k]
            &&& play(s.begun(task), replies).request() is Done <==> names == s.domains && play(
                s.begun(task),
                replies,
            ).pending.len() == 0
        }),
    decreases replies.len(),
{
    let start = s.begun(task);
    law_a_task_starts_over(s, task);
    lemma_asked(s, task, replies);
    law_replies_keep_form(start, replies);
    let names = asked(start, replies);
    if play(start, replies).request() is Done {
        assert(names =~= s.domains);
    }
}

/// How many domains were looked up is how far the blocker has come.
proof fn lemma_asked(s: BlockerView, task: Task, replies: Seq<Reply>)
    requires
        s.wf(),
    ensures
        asked(s.begun(task), replies).len() == play(s.begun(task), replies).next,
        asked(s.begun(task), replies).len() == answers(s.begun(task), replies).len(),
        asked(s.begun(task), replies).len() <= s.domains.len(),
        forall|k: int|
            0 <= k < asked(s.begun(task), replies).len() ==> #[trigger] asked(
                s.begun(task),
                replies,
            )[k] == s.domains[k],
    decreases replies.len(),
{
    let start = s.begun(task);
    law_a_task_starts_over(s, task);
    if replies.len() > 0 {
        let front = replies.drop_last();
        lemma_asked(s, task, front);
        law_replies_keep_form(start, front);
        let before = asked(start, front);
        let names = asked(start, replies);
        assert forall|k: int| 0 <= k < names.len() implies #[trigger] names[k] == s.domains[k] by {
            if k < before.len() {
                assert(names[k] == before[k]);
            }
        }
    }
}

/// Absorbing adds what is new, each address once, in the order in which it first comes up, and
/// changes nothing of what was there.
pub proof fn law_new_addresses_follow_in_order(base: Seq<Seq<char>>, more: Seq<Seq<char>>)
    ensures
        ({
            let all = absorb(base, more);
            let fresh = all.skip(base.len() as int);
            &&& base.len() <= all.len()
            &&& all.take(base.len() as int) == base
            &&& forall|ip: Seq<char>| #[trigger]
                fresh.contains(ip) <==> more.contains(ip) && !base.contains(ip)
            &&& fresh.no_duplicates()
            &&& forall|i: int, j: int, p: int|
                0 <= i < j < fresh.len() && 0 <= p < more.len() && #[trigger] more[p]
                    == #[trigger] fresh[j] ==> more.take(p).contains(#[trigger] fresh[i])
        }),
    decreases more.len(),
{
    let n = base.len() as int;
    let all = absorb(base, more);
    let fresh = all.skip(n);
    if more.len() == 0 {
        assert(base.take(n) =~= base);
        assert(fresh =~= Seq::<Seq<char>>::empty());
    } else {
        let front = more.drop_last();
        let x = more.last();
        let init = absorb(base, front);
        let old_fresh = init.skip(n);
        law_new_addresses_follow_in_order(base, front);
        assert(all.take(n) =~= init.take(n));
        assert(init =~= base + old_fresh);
        lemma_in_either(base, old_fresh, x);
        assert(more =~= front.push(x));
        assert forall|ip: Seq<char>| #[trigger] more.contains(ip) <==> front.contains(ip) || ip
            == x by {
            lemma_in_pushed(front, x, ip);
        }
        if init.contains(x) {
            assert(fresh == old_fresh);
        } else {
            assert(fresh =~= old_fresh.push(x));
        }
        assert forall|ip: Seq<char>| #[trigger] fresh.contains(ip) <==> more.contains(ip)
            && !base.contains(ip) by {
            lemma_in_pushed(old_fresh, x, ip);
            assert(old_fresh.contains(ip) <==> front.contains(ip) && !base.contains(ip));
            assert(more.contains(ip) <==> front.contains(ip) || ip == x);
        }
        assert(fresh.no_duplicates()) by {
            if !init.contains(x) {
                assert forall|a: int, b: int| 0 <= a < b < fresh.len() implies fresh[a]
                    != fresh[b] by {
                    if b < old_fresh.len() {
                        assert(old_fresh[a] != old_fresh[b]);
                    } else {
                        assert(old_fresh.contains(old_fresh[a]));
                    }
                }
            }
        }
        assert forall|i: int, j: int, p: int|
            0 <= i < j < fresh.len() && 0 <= p < more.len() && #[trigger] more[p]
                == #[trigger] fresh[j] implies more.take(p).contains(#[trigger] fresh[i]) by {
            assert(fresh[i] == old_fresh[i]);
            assert(old_fresh.contains(old_fresh[i]));
            assert(front.contains(fresh[i]));
            if p < front.len() {
                assert(front[p] == more[p]);
                assert(front.contains(front[p]));
                if j >= old_fresh.len() {
                    assert(fresh[j] == x);
                    assert(!base.contains(x));
                    assert(old_fresh.contains(x));
                    assert(false);
                }
                assert(fresh[j] == old_fresh[j]);
                assert(front.take(p).contains(old_fresh[i]));
                assert(front.take(p) =~= more.take(p));
            } else {
                assert(more.take(p) =~= front);
            }
        }
    }
}

/// An element stands in a sequence with one more at its end exactly if it stands there or is that
/// one.
proof fn lemma_in_pushed(s: Seq<Seq<char>>, x: Seq<char>, y: Seq<char>)
    ensures
        s.push(x).contains(y) <==> s.contains(y) || y == x,
{
    if s.contains(y) {
        let i = choose|i: int| 0 <= i < s.len() && s[i] == y;
        assert(s.push(x)[i] == y);
    }
    assert(s.push(x)[s.len() as int] == x);
    if s.push(x).contains(y) && y != x {
        let i = choose|i: int| 0 <= i < s.push(x).len() && s.push(x)[i] == y;
        assert(s[i] == y);
    }
}

/// An element stands in two sequences put together exactly if it stands in one of them.
proof fn lemma_in_either(a: Seq<Seq<char>>, b: Seq<Seq<char>>, y: Seq<char>)
    ensures
        (a + b).contains(y) <==> a.contains(y) || b.contains(y),
{
    if a.contains(y) {
        let i = choose|i: int| 0 <= i < a.len() && a[i] == y;
        assert((a + b)[i] == y);
    }
    if b.contains(y) {
        let i = choose|i: int| 0 <= i < b.len() && b[i] == y;
        assert((a + b)[a.len() + i] == y);
    }
    if (a + b).contains(y) {
        let i = choose|i: int| 0 <= i < (a + b).len() && (a + b)[i] == y;
        if i < a.len() {
            assert(a[i] == y);
        } else {
            assert(b[i - a.len()] == y);
        }
    }
}

/// Absorbing lists adds nothing that is in none of them.
proof fn lemma_absorb_all_only(base: Seq<Seq<char>>, lists: Seq<Seq<Seq<char>>>, ip: Seq<char>)
    requires
        absorb_all(base, lists).contains(ip),
    ensures
        base.contains(ip) || exists|k: int|
            0 <= k < lists.len() && #[trigger] lists[k].contains(ip),
    decreases lists.len(),
{
    if lists.len() > 0 {
        let front = lists.drop_last();
        let init = absorb_all(base, front);
        lemma_absorb(init, lists.last());
        if init.contains(ip) {
            lemma_absorb_all_only(base, front, ip);
            if !base.contains(ip) {
                let k = choose|k: int| 0 <= k < front.len() && #[trigger] front[k].contains(ip);
                assert(lists[k].contains(ip));
            }
        } else {
            assert(lists[lists.len() - 1].contains(ip));
        }
    }
}

/// The command line of a rule for an address: with `-A` it adds the rule that drops what is sent
/// there, with `-D` it deletes one.
pub open spec fn drops(action: Seq<char>, ip: Seq<char>) -> CommandView {
    CommandView {
        program: "iptables"@,
        args: seq![action, "OUTPUT"@, "-d"@, ip, "-j"@, "DROP"@],
    }
}

/// Whether an address is one of a domain in the list.
pub open spec fn has_address(
    domains: Seq<Seq<char>>,
    addresses: spec_fn(Seq<char>) -> Seq<Seq<char>>,
    ip: Seq<char>,
) -> bool {
    exists|k: int| 0 <= k < domains.len() && addresses(#[trigger] domains[k]).contains(ip)
}

/// Whether a command is among those that were run.
pub open spec fn runs(done: Seq<(CommandView, Option<bool>)>, command: CommandView) -> bool {
    exists|i: int| 0 <= i < done.len() && (#[trigger] done[i]).0 == command
}

/// Whether each lookup is answered with the addresses of the domain that it names.
pub open spec fn answered_by(
    start: BlockerView,
    replies: Seq<Reply>,
    addresses: spec_fn(Seq<char>) -> Seq<Seq<char>>,
) -> bool {
    forall|k: int|
        0 <= k < answers(start, replies).len() ==> #[trigger] answers(start, replies)[k]
            == addresses(asked(start, replies)[k])
}

/// What the lookups found are the addresses of the domains.
proof fn lemma_found(
    s: BlockerView,
    task: Task,
    replies: Seq<Reply>,
    addresses: spec_fn(Seq<char>) -> Seq<Seq<char>>,
    ip: Seq<char>,
)
    requires
        s.wf(),
        play(s.begun(task), replies).request() is Done,
        answered_by(s.begun(task), replies, addresses),
    ensures
        has_address(s.domains, addresses, ip) <==> exists|k: int|
            0 <= k < answers(s.begun(task), replies).len() && #[trigger] answers(
                s.begun(task),
                replies,
            )[k].contains(ip),
{
    let found = answers(s.begun(task), replies);
    law_every_domain_is_looked_up(s, task, replies);
    if has_address(s.domains, addresses, ip) {
        let k = choose|k: int|
            0 <= k < s.domains.len() && addresses(#[trigger] s.domains[k]).contains(ip);
        assert(found[k].contains(ip));
    }
    if exists|k: int| 0 <= k < found.len() && #[trigger] found[k].contains(ip) {
        let k = choose|k: int| 0 <= k < found.len() && #[trigger] found[k].contains(ip);
        assert(addresses(s.domains[k]).contains(ip));
    }
}

/// Blocking drops the traffic to every address of every configured domain. Where each lookup is
/// answered with the addresses of the domain that it names, then, once the task is done, a rule has
/// been added for each of these addresses that was not blocked before, one for each and none for
/// any other address.
pub proof fn law_every_address_is_dropped(
    s: BlockerView,
    replies: Seq<Reply>,
    addresses: spec_fn(Seq<char>) -> Seq<Seq<char>>,
)
    requires
        s.wf(),
        play(s.begun(Task::Block), replies).request() is Done,
        answered_by(s.begun(Task::Block), replies, addresses),
    ensures
        ({
            let done = ran(s.begun(Task::Block), replies);
            let blocked = play(s.begun(Task::Block), replies).blocked;
            &&& forall|ip: Seq<char>| #[trigger]
                blocked.contains(ip) <==> s.blocked.contains(ip) || has_address(
                    s.domains,
                    addresses,
                    ip,
                )
            &&& forall|ip: Seq<char>| #[trigger]
                runs(done, drops("-A"@, ip)) <==> has_address(s.domains, addresses, ip)
                    && !s.blocked.contains(ip)
            &&& forall|i: int|
                0 <= i < done.len() ==> (#[trigger] done[i]).0 == drops("-A"@, done[i].0.args[3])
            &&& forall|i: int, j: int|
                0 <= i < j < done.len() ==> (#[trigger] done[i]).0 != (#[trigger] done[j]).0
        }),
{
    let start = s.begun(Task::Block);
    let end = play(start, replies);
    let done = ran(start, replies);
    let found = answers(start, replies);
    let n = s.blocked.len() as int;
    law_a_task_starts_over(s, Task::Block);
    law_block_adds_each_address_once(start, replies);
    law_block_leaves_nothing_out(start, replies);
    assert(end.blocked + end.pending =~= end.blocked);
    assert(end.blocked.take(n) == s.blocked);
    assert forall|i: int| 0 <= i < done.len() implies (#[trigger] done[i]).0 == drops(
        "-A"@,
        end.blocked[n + i],
    ) && done[i].0.args[3] == end.blocked[n + i] by {}
    assert forall|ip: Seq<char>| #[trigger] end.blocked.contains(ip) <==> s.blocked.contains(ip)
        || has_address(s.domains, addresses, ip) by {
        lemma_found(s, Task::Block, replies, addresses, ip);
        if end.blocked.contains(ip) {
            lemma_absorb_all_only(s.blocked, found, ip);
        }
        if s.blocked.contains(ip) {
            let j = choose|j: int| 0 <= j < s.blocked.len() && s.blocked[j] == ip;
            assert(end.blocked.take(n)[j] == ip);
            assert(end.blocked[j] == ip);
        }
    }
    assert forall|ip: Seq<char>| #[trigger] runs(done, drops("-A"@, ip)) <==> has_address(
        s.domains,
        addresses,
        ip,
    ) && !s.blocked.contains(ip) by {
        if runs(done, drops("-A"@, ip)) {
            let i = choose|i: int| 0 <= i < done.len() && (#[trigger] done[i]).0 == drops("-A"@, ip);
            assert(drops("-A"@, ip).args[3] == ip);
            assert(end.blocked[n + i] == ip);
            assert(end.blocked.contains(ip));
            if s.blocked.contains(ip) {
                let j = choose|j: int| 0 <= j < s.blocked.len() && s.blocked[j] == ip;
                assert(end.blocked.take(n)[j] == ip);
                assert(end.blocked[j] == ip);
            }
        }
        if has_address(s.domains, addresses, ip) && !s.blocked.contains(ip) {
            assert(end.blocked.contains(ip));
            let j = choose|j: int| 0 <= j < end.blocked.len() && end.blocked[j] == ip;
            if j < n {
                assert(end.blocked.take(n)[j] == ip);
                assert(s.blocked[j] == ip);
            } else {
                assert(done[j - n].0 == drops("-A"@, ip));
            }
        }
    }
    assert forall|i: int, j: int| 0 <= i < j < done.len() implies (#[trigger] done[i]).0 != (
    #[trigger] done[j]).0 by {
        assert(done[i].0.args[3] == end.blocked[n + i]);
        assert(done[j].0.args[3] == end.blocked[n + j]);
    }
}

/// All lists put together hold what one of them holds.
proof fn lemma_concat_holds(lists: Seq<Seq<Seq<char>>>, ip: Seq<char>)
    ensures
        concat(lists).contains(ip) <==> exists|k: int|
            0 <= k < lists.len() && #[trigger] lists[k].contains(ip),
    decreases lists.len(),
{
    if lists.len() > 0 {
        let front = lists.drop_last();
        lemma_concat_holds(front, ip);
        lemma_in_either(concat(front), lists.last(), ip);
        if concat(front).contains(ip) {
            let k = choose|k: int| 0 <= k < front.len() && #[trigger] front[k].contains(ip);
            assert(lists[k].contains(ip));
        }
        if lists.last().contains(ip) {
            assert(lists[lists.len() - 1].contains(ip));
        }
        if exists|k: int| 0 <= k < lists.len() && #[trigger] lists[k].contains(ip) {
            let k = choose|k: int| 0 <= k < lists.len() && #[trigger] lists[k].contains(ip);
            if k < front.len() {
                assert(front[k].contains(ip));
            }
        }
    }
}

/// Flushing frees every address of every configured domain. Where each lookup is answered with the
/// addresses of the domain that it names, and deletions end in success exactly where there is a rule
/// to delete, then, once the task is done, no rule is left for any of these addresses, and all other
/// rules are as they were. Every command that was run deletes a rule.
pub proof fn law_every_address_is_freed(
    s: BlockerView,
    replies: Seq<Reply>,
    addresses: spec_fn(Seq<char>) -> Seq<Seq<char>>,
    rules: Multiset<Seq<char>>,
)
    requires
        s.wf(),
        play(s.begun(Task::Flush), replies).request() is Done,
        deletions_are_true(rules, ran(s.begun(Task::Flush), replies)),
        answered_by(s.begun(Task::Flush), replies, addresses),
    ensures
        ({
            let done = ran(s.begun(Task::Flush), replies);
            &&& forall|ip: Seq<char>| #[trigger]
                rules_after(rules, done).count(ip) == (if has_address(s.domains, addresses, ip) {
                    0
                } else {
                    rules.count(ip)
                })
            &&& forall|i: int|
                0 <= i < done.len() ==> (#[trigger] done[i]).0 == drops("-D"@, done[i].0.args[3])
        }),
{
    let start = s.begun(Task::Flush);
    let done = ran(start, replies);
    law_a_task_starts_over(s, Task::Flush);
    law_flush_clears_the_rules(start, replies, rules);
    law_flush_repeats_until_failure(start, replies);
    assert forall|ip: Seq<char>| #[trigger]
        rules_after(rules, done).count(ip) == (if has_address(s.domains, addresses, ip) {
            0
        } else {
            rules.count(ip)
        }) by {
        lemma_found(s, Task::Flush, replies, addresses, ip);
        lemma_concat_holds(answers(start, replies), ip);
    }
    assert forall|i: int| 0 <= i < done.len() implies (#[trigger] done[i]).0 == drops(
        "-D"@,
        done[i].0.args[3],
    ) by {
        let ip = choose|ip: Seq<char>| done[i].0 == #[trigger] delete_rule(ip);
        lemma_commands(ip, ip);
    }
}

/// The addresses of a domain are all that the lookups of its two names found, and no others; those of
/// the first come as they came, and a lookup that failed takes nothing away from the other.
pub proof fn law_both_lookups_count(apex: Option<Vec<String>>, www: Option<Vec<String>>)
    ensures
        ({
            let all = absorb(found(apex), found(www));
            &&& apex matches Some(list) ==> {
                &&& list@.len() <= all.len()
                &&& forall|i: int| 0 <= i < list@.len() ==> #[trigger] all[i] == list@[i]@
            }
            &&& www matches Some(list) ==> forall|i: int|
                0 <= i < list@.len() ==> all.contains((#[trigger] list@[i])@)
            &&& forall|ip: Seq<char>| #[trigger]
                all.contains(ip) ==> (apex is Some && texts(apex->0@).contains(ip)) || (www is Some
                    && texts(www->0@).contains(ip))
        }),
{
    let base = found(apex);
    let more = found(www);
    let all = absorb(base, more);
    lemma_absorb(base, more);
    if apex is Some {
        let list = apex->0@;
        assert forall|i: int| 0 <= i < list.len() implies #[trigger] all[i] == list[i]@ by {
            assert(all.take(base.len() as int)[i] == base[i]);
        }
    }
    if www is Some {
        let list = www->0@;
        assert forall|i: int| 0 <= i < list.len() implies all.contains((#[trigger] list[i])@) by {
            assert(more[i] == list[i]@);
        }
    }
}

} // verus!
