use study_time::command::Command;
use study_time::iptables::{
    lookup_targets, resolve_domain_ips, PlatformBlocker, Request, Task,
};

fn strings(list: &[&str]) -> Vec<String> {
    list.iter().map(|s| s.to_string()).collect()
}

fn rule(command: &Command) -> String {
    format!("{} {}", command.program, command.args.join(" "))
}

fn addresses(domain: &str) -> Vec<String> {
    match domain {
        "a.org" => strings(&["1.1.1.1", "2.2.2.2", "1.1.1.1"]),
        "b.org" => strings(&["2.2.2.2", "::3"]),
        _ => Vec::new(),
    }
}

/// Carries a task out, with `rules` for the rules that stand for each address.
fn carry_out(blocker: &mut PlatformBlocker, rules: &mut Vec<String>) -> Vec<String> {
    let mut ran = Vec::new();
    loop {
        match blocker.request() {
            Request::Resolve(domain) => blocker.resolved(addresses(&domain)),
            Request::Run(command) => {
                ran.push(rule(&command));
                let ip = command.args[3].clone();
                if command.args[0] == "-A" {
                    rules.push(ip);
                    blocker.finished(Some(true));
                } else {
                    match rules.iter().position(|r| *r == ip) {
                        Some(at) => {
                            rules.remove(at);
                            blocker.finished(Some(true));
                        }
                        None => blocker.finished(Some(false)),
                    }
                }
            }
            Request::Done => return ran,
        }
    }
}

#[test]
fn looks_up_both_names() {
    let (apex, www) = lookup_targets("x.com");
    assert_eq!(apex, "x.com:443");
    assert_eq!(www, "www.x.com:443");
}

#[test]
fn second_lookup_adds_what_is_new() {
    let ips = resolve_domain_ips(
        Some(strings(&["1.1.1.1", "1.1.1.1", "2.2.2.2"])),
        Some(strings(&["2.2.2.2", "3.3.3.3", "3.3.3.3", "1.1.1.1"])),
    );
    assert_eq!(ips, ["1.1.1.1", "1.1.1.1", "2.2.2.2", "3.3.3.3"]);
}

#[test]
fn failed_lookups_give_nothing() {
    assert!(resolve_domain_ips(None, None).is_empty());
    assert_eq!(resolve_domain_ips(None, Some(strings(&["1", "1"]))), ["1"]);
    assert_eq!(resolve_domain_ips(Some(strings(&["1", "1"])), None), ["1", "1"]);
}

#[test]
fn starts_by_clearing_away_old_rules() {
    let mut blocker = PlatformBlocker::new(strings(&["a.org"]));
    let mut rules = strings(&["1.1.1.1", "1.1.1.1", "9.9.9.9"]);
    assert_eq!(blocker.task, Task::Flush);
    let ran = carry_out(&mut blocker, &mut rules);
    assert_eq!(rules, ["9.9.9.9"]);
    assert_eq!(
        ran,
        [
            "iptables -D OUTPUT -d 1.1.1.1 -j DROP",
            "iptables -D OUTPUT -d 1.1.1.1 -j DROP",
            "iptables -D OUTPUT -d 1.1.1.1 -j DROP",
            "iptables -D OUTPUT -d 2.2.2.2 -j DROP",
            "iptables -D OUTPUT -d 1.1.1.1 -j DROP",
        ]
    );
}

#[test]
fn blocks_each_address_once() {
    let mut blocker = PlatformBlocker::new(strings(&["a.org", "b.org", "none.org"]));
    let mut rules = Vec::new();
    carry_out(&mut blocker, &mut rules);
    blocker.block();
    let ran = carry_out(&mut blocker, &mut rules);
    assert_eq!(
        ran,
        [
            "iptables -A OUTPUT -d 1.1.1.1 -j DROP",
            "iptables -A OUTPUT -d 2.2.2.2 -j DROP",
            "iptables -A OUTPUT -d ::3 -j DROP",
        ]
    );
    assert_eq!(blocker.blocked_ips, ["1.1.1.1", "2.2.2.2", "::3"]);
    blocker.block();
    assert!(carry_out(&mut blocker, &mut rules).is_empty());
}

#[test]
fn a_failed_rule_still_counts_as_blocked() {
    let mut blocker = PlatformBlocker::new(strings(&["a.org"]));
    blocker.block();
    blocker.resolved(strings(&["1.1.1.1"]));
    blocker.finished(None);
    assert_eq!(blocker.blocked_ips, ["1.1.1.1"]);
    assert!(matches!(blocker.request(), Request::Done));
}

#[test]
fn unblocking_deletes_what_blocking_added() {
    let mut blocker = PlatformBlocker::new(strings(&["a.org", "b.org"]));
    let mut rules = Vec::new();
    carry_out(&mut blocker, &mut rules);
    blocker.block();
    let added = carry_out(&mut blocker, &mut rules);
    let deleted: Vec<String> = blocker.unblock().iter().map(rule).collect();
    let undone: Vec<String> = added.iter().map(|c| c.replace("-A", "-D")).collect();
    assert_eq!(deleted, undone);
    assert!(blocker.blocked_ips.is_empty());
    assert!(blocker.unblock().is_empty());
}

#[test]
fn flushing_forgets_and_deletes_everything() {
    let mut blocker = PlatformBlocker::new(strings(&["a.org", "b.org"]));
    let mut rules = Vec::new();
    carry_out(&mut blocker, &mut rules);
    blocker.block();
    carry_out(&mut blocker, &mut rules);
    blocker.flush_all();
    assert!(blocker.blocked_ips.is_empty());
    carry_out(&mut blocker, &mut rules);
    assert!(rules.is_empty());
}

#[test]
fn a_command_that_cannot_start_ends_the_deletion() {
    let mut blocker = PlatformBlocker::new(strings(&["a.org"]));
    blocker.resolved(strings(&["1.1.1.1"]));
    blocker.finished(Some(true));
    assert!(matches!(blocker.request(), Request::Run(_)));
    blocker.finished(None);
    assert!(matches!(blocker.request(), Request::Done));
}

#[test]
fn replies_that_were_not_asked_for_change_nothing() {
    let mut blocker = PlatformBlocker::new(strings(&["a.org"]));
    blocker.finished(Some(false));
    assert!(matches!(blocker.request(), Request::Resolve(d) if d == "a.org"));
    blocker.resolved(strings(&["1.1.1.1"]));
    blocker.resolved(strings(&["2.2.2.2"]));
    assert!(matches!(blocker.request(), Request::Run(c) if c.args[3] == "1.1.1.1"));
}

#[test]
fn flushing_clears_the_rules_of_what_is_found() {
    let mut blocker = PlatformBlocker::new(strings(&["a.org", "b.org"]));
    let mut rules =
        strings(&["9.9.9.9", "::3", "1.1.1.1", "::3", "9.9.9.9", "2.2.2.2", "::3", "8.8.8.8"]);
    carry_out(&mut blocker, &mut rules);
    assert_eq!(rules, ["9.9.9.9", "9.9.9.9", "8.8.8.8"]);
}

#[test]
fn unblocking_restores_the_rules() {
    let mut blocker = PlatformBlocker::new(strings(&["a.org", "b.org"]));
    let mut before = strings(&["1.1.1.1", "1.1.1.1", "9.9.9.9"]);
    let mut rules = before.clone();
    blocker.block();
    carry_out(&mut blocker, &mut rules);
    assert_eq!(rules.len(), 6);
    for command in blocker.unblock() {
        assert_eq!(command.args[0], "-D");
        let at = rules.iter().position(|r| *r == command.args[3]).unwrap();
        rules.remove(at);
    }
    rules.sort();
    before.sort();
    assert_eq!(rules, before);
}
