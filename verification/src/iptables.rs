//! Blocking by packet filter rules, one for each address of a blocked domain.
//!
//! Looking names up and running commands is left to the owner of a [`PlatformBlocker`]: it asks
//! for the next [`Request`], carries it out and hands the result back, until nothing is left.

use vstd::prelude::*;
use crate::command::{Command, CommandView};
use crate::command::commands;
use crate::text::texts;

verus! {

/// The rule command with the given action for an address.
pub open spec fn rule(action: Seq<char>, ip: Seq<char>) -> CommandView {
    CommandView {
        program: "iptables"@,
        args: seq![action, "OUTPUT"@, "-d"@, ip, "-j"@, "DROP"@],
    }
}

/// The command that adds the rule for an address.
pub open spec fn append_rule(ip: Seq<char>) -> CommandView {
    rule("-A"@, ip)
}

/// The command that deletes one rule for an address.
pub open spec fn delete_rule(ip: Seq<char>) -> CommandView {
    rule("-D"@, ip)
}

/// `base` followed by the addresses of `more` that it does not hold yet, each once.
pub open spec fn absorb(base: Seq<Seq<char>>, more: Seq<Seq<char>>) -> Seq<Seq<char>>
    decreases more.len(),
{
    if more.len() == 0 {
        base
    } else {
        let init = absorb(base, more.drop_last());
        if init.contains(more.last()) {
            init
        } else {
            init.push(more.last())
        }
    }
}

/// What a blocker is doing.
#[derive(Clone, Copy, Debug, PartialEq, Eq, Structural)]
pub enum Task {
    /// Adding a rule for each address that has none.
    Block,
    /// Deleting the rules of each address until none is left.
    Flush,
}

/// What a blocker wants done next.
#[derive(Debug)]
pub enum Request {
    /// Find the addresses of a domain.
    Resolve(String),
    /// Run a command.
    Run(Command),
    /// Nothing is left to do.
    Done,
}

/// What a [`Request`] says.
pub enum RequestView {
    Resolve(Seq<char>),
    Run(CommandView),
    Done,
}

impl View for Request {
    type V = RequestView;

    open spec fn view(&self) -> RequestView {
        match *self {
            Request::Resolve(domain) => RequestView::Resolve(domain@),
            Request::Run(command) => RequestView::Run(command@),
            Request::Done => RequestView::Done,
        }
    }
}

/// What the owner of a blocker hands back.
pub enum Reply {
    /// The addresses that were asked for.
    Resolved(Seq<Seq<char>>),
    /// Whether the command ended in success; nothing where it could not be started.
    Finished(Option<bool>),
}

/// The blocked addresses and domains, and how far the task at hand has come.
#[derive(Debug)]
pub struct PlatformBlocker {
    pub blocked_ips: Vec<String>,
    pub blocked_domains: Vec<String>,
    pub task: Task,
    pub next_domain: usize,
    pub pending: Vec<String>,
}

/// What a [`PlatformBlocker`] holds.
pub struct BlockerView {
    /// The addresses with a rule of ours, in the order in which the rules were added.
    pub blocked: Seq<Seq<char>>,
    /// The domains to block.
    pub domains: Seq<Seq<char>>,
    /// The task at hand.
    pub task: Task,
    /// How many domains have been looked up for it.
    pub next: int,
    /// The addresses of the last one that are still to be dealt with.
    pub pending: Seq<Seq<char>>,
}

impl BlockerView {
    /// No address is blocked twice, and none that waits to be blocked is blocked already.
    pub open spec fn wf(self) -> bool {
        &&& 0 <= self.next <= self.domains.len()
        &&& self.blocked.no_duplicates()
        &&& self.task == Task::Block ==> (self.blocked + self.pending).no_duplicates()
    }

    /// The blocker at the start of a task.
    pub open spec fn begun(self, task: Task) -> BlockerView {
        BlockerView { task, next: 0, pending: Seq::empty(), ..self }
    }

    /// What is to be done next.
    pub open spec fn request(self) -> RequestView {
        if self.pending.len() > 0 {
            RequestView::Run(
                match self.task {
                    Task::Block => append_rule(self.pending[0]),
                    Task::Flush => delete_rule(self.pending[0]),
                },
            )
        } else if self.next < self.domains.len() {
            RequestView::Resolve(self.domains[self.next])
        } else {
            RequestView::Done
        }
    }

    /// Whether a reply answers what is to be done next.
    pub open spec fn expects(self, reply: Reply) -> bool {
        match reply {
            Reply::Resolved(_) => self.request() is Resolve,
            Reply::Finished(_) => self.request() is Run,
        }
    }

    /// The blocker after a reply. A reply to something that was not asked changes nothing.
    pub open spec fn after(self, reply: Reply) -> BlockerView {
        if !self.expects(reply) {
            self
        } else {
            match reply {
                Reply::Resolved(ips) => BlockerView {
                    next: self.next + 1,
                    pending: match self.task {
                        Task::Block => absorb(self.blocked, ips).skip(self.blocked.len() as int),
                        Task::Flush => ips,
                    },
                    ..self
                },
                Reply::Finished(outcome) => match self.task {
                    Task::Block => BlockerView {
                        blocked: self.blocked.push(self.pending[0]),
                        pending: self.pending.drop_first(),
                        ..self
                    },
                    Task::Flush => if outcome == Some(true) {
                        self
                    } else {
                        BlockerView { pending: self.pending.drop_first(), ..self }
                    },
                },
            }
        }
    }
}

impl View for PlatformBlocker {
    type V = BlockerView;

    open spec fn view(&self) -> BlockerView {
        BlockerView {
            blocked: texts(self.blocked_ips@),
            domains: texts(self.blocked_domains@),
            task: self.task,
            next: self.next_domain as int,
            pending: texts(self.pending@),
        }
    }
}

/// Absorbing keeps what was there, in front, and repeats nothing.
pub proof fn lemma_absorb(base: Seq<Seq<char>>, more: Seq<Seq<char>>)
    ensures
        base.len() <= absorb(base, more).len(),
        absorb(base, more).take(base.len() as int) == base,
        base.no_duplicates() ==> absorb(base, more).no_duplicates(),
        forall|k: int| 0 <= k < more.len() ==> absorb(base, more).contains(#[trigger] more[k]),
        forall|ip: Seq<char>| #[trigger]
            absorb(base, more).contains(ip) ==> base.contains(ip) || more.contains(ip),
    decreases more.len(),
{
    if more.len() == 0 {
        assert(base.take(base.len() as int) =~= base);
    } else {
        let front = more.drop_last();
        let init = absorb(base, front);
        let all = absorb(base, more);
        lemma_absorb(base, front);
        assert(all.take(base.len() as int) =~= init.take(base.len() as int));
        assert(all.contains(more.last())) by {
            if !init.contains(more.last()) {
                assert(all[init.len() as int] == more.last());
            }
        }
        assert forall|k: int| 0 <= k < more.len() implies all.contains(#[trigger] more[k]) by {
            if k < front.len() {
                assert(init.contains(front[k]));
                let j = choose|j: int| 0 <= j < init.len() && init[j] == front[k];
                assert(all[j] == more[k]);
            }
        }
        assert forall|ip: Seq<char>| #[trigger] all.contains(ip) implies base.contains(ip)
            || more.contains(ip) by {
            let j = choose|j: int| 0 <= j < all.len() && all[j] == ip;
            if j < init.len() {
                assert(init[j] == ip);
                assert(init.contains(ip));
                if front.contains(ip) {
                    let m = choose|m: int| 0 <= m < front.len() && front[m] == ip;
                    assert(more[m] == ip);
                }
            } else {
                assert(more[more.len() - 1] == ip);
            }
        }
    }
}

/// Whether an address is among the strings.
fn holds(list: &Vec<String>, ip: &String) -> (r: bool)
    ensures
        r == texts(list@).contains(ip@),
{
    let ghost all = texts(list@);
    let mut i: usize = 0;
    while i < list.len()
        invariant
            all == texts(list@),
            i <= list@.len(),
            forall|j: int| 0 <= j < i ==> all[j] != ip@,
        decreases list@.len() - i,
    {
        proof {
            assert(all[i as int] == list@[i as int]@);
        }
        if list[i] == *ip {
            return true;
        }
        i = i + 1;
    }
    false
}

/// The names to look up for a domain: itself and its `www.` name, each with the port of the secure
/// web.
pub fn lookup_targets(domain: &str) -> (r: (String, String))
    ensures
        r.0@ == domain@ + ":443"@,
        r.1@ == "www."@ + domain@ + ":443"@,
{
    let mut apex: String = domain.to_string();
    apex.append(":443");
    let mut www: String = "www.".to_string();
    www.append(domain);
    www.append(":443");
    (apex, www)
}

/// The addresses that a lookup found, none where it failed.
pub open spec fn found(lookup: Option<Vec<String>>) -> Seq<Seq<char>> {
    match lookup {
        Some(ips) => texts(ips@),
        None => Seq::empty(),
    }
}

/// The addresses of a domain, from the lookups of its two names: those of the first as they came,
/// then those of the second that are not there yet.
pub fn resolve_domain_ips(apex: Option<Vec<String>>, www: Option<Vec<String>>) -> (r: Vec<String>)
    ensures
        texts(r@) == absorb(found(apex), found(www)),
{
    let ghost base = found(apex);
    let mut ips: Vec<String> = match apex {
        Some(list) => list,
        None => Vec::new(),
    };
    proof {
        assert(texts(ips@) =~= base);
    }
    let more: Vec<String> = match www {
        Some(list) => list,
        None => Vec::new(),
    };
    let ghost extra = found(www);
    proof {
        assert(texts(more@) =~= extra);
        assert(extra.take(0) =~= Seq::<Seq<char>>::empty());
    }
    let mut i: usize = 0;
    while i < more.len()
        invariant
            texts(more@) == extra,
            i <= more@.len(),
            texts(ips@) == absorb(base, extra.take(i as int)),
        decreases more@.len() - i,
    {
        let ghost held = ips@;
        proof {
            assert(extra[i as int] == more@[i as int]@);
            assert(extra.take(i + 1).drop_last() =~= extra.take(i as int));
        }
        if !holds(&ips, &more[i]) {
            ips.push(more[i].clone());
            proof {
                assert(texts(ips@) =~= texts(held).push(extra[i as int]));
            }
        }
        i = i + 1;
    }
    proof {
        assert(extra.take(extra.len() as int) =~= extra);
    }
    ips
}

/// The rule command with the given action for an address.
fn rule_command(action: &str, ip: &str) -> (r: Command)
    ensures
        r@ == rule(action@, ip@),
{
    let r = Command::new("iptables").arg(action).arg("OUTPUT").arg("-d").arg(ip).arg("-j").arg(
        "DROP",
    );
    proof {
        assert(r@.args =~= rule(action@, ip@).args);
    }
    r
}

impl PlatformBlocker {
    /// A blocker for the domains that starts by clearing away the rules that an earlier run left.
    pub fn new(blocked_domains: Vec<String>) -> (r: PlatformBlocker)
        ensures
            r@.wf(),
            r@ == (BlockerView {
                blocked: Seq::empty(),
                domains: texts(blocked_domains@),
                task: Task::Flush,
                next: 0,
                pending: Seq::empty(),
            }),
    {
        let mut r = PlatformBlocker {
            blocked_ips: Vec::new(),
            blocked_domains,
            task: Task::Block,
            next_domain: 0,
            pending: Vec::new(),
        };
        proof {
            assert(texts(r.blocked_ips@) =~= Seq::<Seq<char>>::empty());
            assert(texts(r.pending@) =~= Seq::<Seq<char>>::empty());
            assert((r@.blocked + r@.pending) =~= Seq::<Seq<char>>::empty());
        }
        r.cleanup_stale_rules();
        r
    }

    /// Starts to delete every rule of the domains' addresses.
    pub fn cleanup_stale_rules(&mut self)
        requires
            old(self)@.wf(),
        ensures
            final(self)@.wf(),
            final(self)@ == old(self)@.begun(Task::Flush),
            final(self).blocked_domains == old(self).blocked_domains,
            final(self).blocked_ips == old(self).blocked_ips,
            final(self).next_domain == 0,
    {
        self.task = Task::Flush;
        self.next_domain = 0;
        self.pending.clear();
        proof {
            assert(texts(self.pending@) =~= Seq::<Seq<char>>::empty());
        }
    }

    /// Starts to block every address of the domains that is not blocked yet.
    pub fn block(&mut self)
        requires
            old(self)@.wf(),
        ensures
            final(self)@.wf(),
            final(self)@ == old(self)@.begun(Task::Block),
            final(self).blocked_domains == old(self).blocked_domains,
            final(self).blocked_ips == old(self).blocked_ips,
            final(self).next_domain == 0,
    {
        self.task = Task::Block;
        self.next_domain = 0;
        self.pending.clear();
        proof {
            assert(texts(self.pending@) =~= Seq::<Seq<char>>::empty());
            assert(self@.blocked + self@.pending =~= self@.blocked);
        }
    }

    /// The commands that delete the rule of each blocked address, which then no longer counts as
    /// blocked.
    pub fn unblock(&mut self) -> (r: Vec<Command>)
        requires
            old(self)@.wf(),
        ensures
            final(self)@.wf(),
            commands(r@) == old(self)@.blocked.map_values(|ip: Seq<char>| delete_rule(ip)),
            final(self)@ == (BlockerView { blocked: Seq::empty(), ..old(self)@ }),
            final(self).blocked_domains == old(self).blocked_domains,
            final(self).blocked_ips@.len() == 0,
            r@.len() == old(self).blocked_ips@.len(),
    {
        let ghost ips = self@.blocked;
        let ghost want = ips.map_values(|ip: Seq<char>| delete_rule(ip));
        let mut out: Vec<Command> = Vec::new();
        let mut i: usize = 0;
        while i < self.blocked_ips.len()
            invariant
                *self == *old(self),
                ips == texts(self.blocked_ips@),
                want == ips.map_values(|ip: Seq<char>| delete_rule(ip)),
                i <= self.blocked_ips@.len(),
                commands(out@) == want.take(i as int),
            decreases self.blocked_ips@.len() - i,
        {
            let ghost held = out@;
            out.push(rule_command("-D", self.blocked_ips[i].as_str()));
            proof {
                assert(ips[i as int] == self.blocked_ips@[i as int]@);
                assert(commands(out@) =~= commands(held).push(want[i as int]));
                assert(want.take(i + 1) =~= want.take(i as int).push(want[i as int]));
            }
            i = i + 1;
        }
        self.blocked_ips.clear();
        proof {
            assert(want.take(want.len() as int) =~= want);
            assert(commands(out@).len() == out@.len());
            assert(texts(self.blocked_ips@) =~= Seq::<Seq<char>>::empty());
            assert(self@.blocked + self@.pending =~= self@.pending);
            if self@.task == Task::Block {
                let all = ips + self@.pending;
                assert forall|i: int, j: int|
                    0 <= i < j < self@.pending.len() implies self@.pending[i]
                    != self@.pending[j] by {
                    assert(all[ips.len() + i] != all[ips.len() + j]);
                }
            }
        }
        out
    }

    /// Forgets the blocked addresses and starts to delete every rule of the domains' addresses.
    pub fn flush_all(&mut self)
        requires
            old(self)@.wf(),
        ensures
            final(self)@.wf(),
            final(self)@ == (BlockerView { blocked: Seq::empty(), ..old(self)@ }).begun(
                Task::Flush,
            ),
            final(self).blocked_domains == old(self).blocked_domains,
            final(self).blocked_ips@.len() == 0,
            final(self).next_domain == 0,
    {
        self.cleanup_stale_rules();
        self.blocked_ips.clear();
        proof {
            assert(texts(self.blocked_ips@) =~= Seq::<Seq<char>>::empty());
        }
    }

    /// What is to be done next.
    pub fn request(&self) -> (r: Request)
        requires
            self@.wf(),
        ensures
            r@ == self@.request(),
            self.pending@.len() == 0 && self.next_domain < self.blocked_domains@.len() ==> (
            r matches Request::Resolve(domain) && domain@
                == self.blocked_domains@[self.next_domain as int]@),
            self.pending@.len() == 0 && self.next_domain >= self.blocked_domains@.len()
                ==> r is Done,
            self.pending@.len() > 0 ==> (r matches Request::Run(command) && command.args@.len() == 6
                && command.args@[3]@ == self.pending@[0]@ && command.program@ == "iptables"@
                && command.args@[0]@ == (if self.task == Task::Block {
                "-A"@
            } else {
                "-D"@
            }) && command.args@[1]@ == "OUTPUT"@ && command.args@[2]@ == "-d"@ && command.args@[4]@
                == "-j"@ && command.args@[5]@ == "DROP"@),
    {
        if self.pending.len() > 0 {
            proof {
                assert(self@.pending[0] == self.pending@[0]@);
            }
            let action = match self.task {
                Task::Block => "-A",
                Task::Flush => "-D",
            };
            let command = rule_command(action, self.pending[0].as_str());
            proof {
                assert(command@.args.len() == command.args@.len());
                assert forall|k: int| 0 <= k < command.args@.len() implies command@.args[k]
                    == #[trigger] command.args@[k]@ by {}
            }
            Request::Run(command)
        } else if self.next_domain < self.blocked_domains.len() {
            Request::Resolve(self.blocked_domains[self.next_domain].clone())
        } else {
            Request::Done
        }
    }

    /// Takes the addresses of the domain that was to be looked up.
    pub fn resolved(&mut self, ips: Vec<String>)
        requires
            old(self)@.wf(),
        ensures
            final(self)@.wf(),
            final(self)@ == old(self)@.after(Reply::Resolved(texts(ips@))),
            final(self).blocked_domains == old(self).blocked_domains,
            final(self).blocked_ips == old(self).blocked_ips,
    {
        if self.pending.len() > 0 || self.next_domain >= self.blocked_domains.len() {
            return;
        }
        match self.task {
            Task::Block => {
                let fresh = self.fresh(&ips);
                proof {
                    let all = absorb(self@.blocked, texts(ips@));
                    lemma_absorb(self@.blocked, texts(ips@));
                    assert(self@.blocked + texts(fresh@) =~= all);
                }
                self.pending = fresh;
            },
            Task::Flush => {
                self.pending = ips;
            },
        }
        self.next_domain = self.next_domain + 1;
    }

    /// The addresses that are not blocked yet, each once.
    fn fresh(&self, ips: &Vec<String>) -> (r: Vec<String>)
        ensures
            texts(r@) == absorb(self@.blocked, texts(ips@)).skip(self@.blocked.len() as int),
    {
        let ghost base = self@.blocked;
        let ghost more = texts(ips@);
        let mut out: Vec<String> = Vec::new();
        let mut i: usize = 0;
        proof {
            assert(more.take(0) =~= Seq::<Seq<char>>::empty());
            assert(texts(out@) =~= base.skip(base.len() as int));
        }
        while i < ips.len()
            invariant
                base == self@.blocked,
                more == texts(ips@),
                i <= ips@.len(),
                texts(out@) == absorb(base, more.take(i as int)).skip(base.len() as int),
            decreases ips@.len() - i,
        {
            let ghost held = out@;
            let ghost init = absorb(base, more.take(i as int));
            proof {
                assert(more[i as int] == ips@[i as int]@);
                assert(more.take(i + 1).drop_last() =~= more.take(i as int));
                lemma_absorb(base, more.take(i as int));
                let n = base.len() as int;
                assert(init =~= init.take(n) + init.skip(n));
                assert(init.contains(more[i as int]) <==> base.contains(more[i as int]) || texts(
                    held,
                ).contains(more[i as int])) by {
                    lemma_contains_concat(base, texts(held), more[i as int]);
                }
            }
            if !holds(&self.blocked_ips, &ips[i]) && !holds(&out, &ips[i]) {
                out.push(ips[i].clone());
                proof {
                    assert(texts(out@) =~= texts(held).push(more[i as int]));
                    assert(init.push(more[i as int]).skip(base.len() as int) =~= init.skip(
                        base.len() as int,
                    ).push(more[i as int]));
                }
            }
            i = i + 1;
        }
        proof {
            assert(more.take(more.len() as int) =~= more);
        }
        out
    }

    /// Takes how the command that was to be run ended: whether in success, or nothing where it
    /// could not be started. A rule that was deleted may stand there again, so its deletion is
    /// repeated until it fails.
    pub fn finished(&mut self, outcome: Option<bool>)
        requires
            old(self)@.wf(),
        ensures
            final(self)@.wf(),
            final(self)@ == old(self)@.after(Reply::Finished(outcome)),
            final(self).blocked_domains == old(self).blocked_domains,
            final(self).next_domain == old(self).next_domain,
    {
        if self.pending.len() == 0 {
            return;
        }
        let deleted = match outcome {
            Some(success) => success,
            None => false,
        };
        match self.task {
            Task::Block => {
                let ip = self.pending.remove(0);
                self.blocked_ips.push(ip);
                proof {
                    let was = old(self)@;
                    assert(was.pending[0] == ip@);
                    assert(texts(self.blocked_ips@) =~= was.blocked.push(ip@));
                    assert(texts(self.pending@) =~= was.pending.drop_first());
                    assert(self@.blocked + self@.pending =~= was.blocked + was.pending);
                    let all = self@.blocked + self@.pending;
                    assert forall|i: int, j: int|
                        0 <= i < j < self@.blocked.len() implies self@.blocked[i]
                        != self@.blocked[j] by {
                        assert(all[i] != all[j]);
                    }
                }
            },
            Task::Flush => {
                if !deleted {
                    let _ = self.pending.remove(0);
                    proof {
                        assert(texts(self.pending@) =~= old(self)@.pending.drop_first());
                    }
                }
            },
        }
    }
}

/// An element stands in one of two sequences exactly if it stands in both put together.
proof fn lemma_contains_concat(a: Seq<Seq<char>>, b: Seq<Seq<char>>, x: Seq<char>)
    ensures
        (a + b).contains(x) <==> a.contains(x) || b.contains(x),
{
    if a.contains(x) {
        let i = choose|i: int| 0 <= i < a.len() && a[i] == x;
        assert((a + b)[i] == x);
    }
    if b.contains(x) {
        let i = choose|i: int| 0 <= i < b.len() && b[i] == x;
        assert((a + b)[a.len() + i] == x);
    }
}

} // verus!
