//! Blocking by entries in the hosts file, for systems without packet filter rules.

use vstd::prelude::*;
use crate::command::{Command, CommandView};
use crate::command::commands;
use crate::text::{contains, joined, lines, trim_end};
use crate::text::{contains_text, join, lines_of, texts, trimmed_end};

verus! {

/// The systems that keep a hosts file.
#[derive(Clone, Copy, Debug, PartialEq, Eq, Structural)]
pub enum Platform {
    Windows,
    MacOs,
    Other,
}

/// The line that opens the blocked section.
pub open spec fn start_mark() -> Seq<char> {
    "# >>> STUDY-TIME BLOCK START <<<"@
}

/// The line that closes the blocked section.
pub open spec fn end_mark() -> Seq<char> {
    "# >>> STUDY-TIME BLOCK END <<<"@
}

/// A line that sends `name` to `address`.
pub open spec fn entry_line(address: Seq<char>, name: Seq<char>) -> Seq<char> {
    (address + name).push('\n')
}

/// The four lines that block `domain` and its `www.` name, over both address families.
pub open spec fn entry(domain: Seq<char>) -> Seq<char> {
    entry_line("127.0.0.1 "@, domain) + entry_line("127.0.0.1 www."@, domain)
        + entry_line("::1 "@, domain) + entry_line("::1 www."@, domain)
}

/// The entries of all domains, in order.
pub open spec fn entries(domains: Seq<Seq<char>>) -> Seq<char>
    decreases domains.len(),
{
    if domains.len() == 0 {
        Seq::empty()
    } else {
        entries(domains.drop_last()) + entry(domains.last())
    }
}

/// The blocked section: the entries between the two marks.
pub open spec fn section(domains: Seq<Seq<char>>) -> Seq<char> {
    start_mark().push('\n') + entries(domains) + end_mark().push('\n')
}

/// The hosts file with the section appended.
pub open spec fn with_section(content: Seq<char>, domains: Seq<Seq<char>>) -> Seq<char> {
    trimmed_end(content).push('\n') + section(domains)
}

/// Whether a line is taken for one of the two marks.
pub open spec fn is_mark(line: Seq<char>) -> bool {
    contains_text(line, start_mark()) || contains_text(line, end_mark())
}

/// Whether the text after these lines stands in a section: the last mark opened one.
pub open spec fn in_section(ls: Seq<Seq<char>>) -> bool
    decreases ls.len(),
{
    if ls.len() == 0 {
        false
    } else if contains_text(ls.last(), start_mark()) {
        true
    } else if contains_text(ls.last(), end_mark()) {
        false
    } else {
        in_section(ls.drop_last())
    }
}

/// The lines that are no mark and stand in no section.
pub open spec fn kept_lines(ls: Seq<Seq<char>>) -> Seq<Seq<char>>
    decreases ls.len(),
{
    if ls.len() == 0 {
        Seq::empty()
    } else {
        let init = kept_lines(ls.drop_last());
        if is_mark(ls.last()) || in_section(ls.drop_last()) {
            init
        } else {
            init.push(ls.last())
        }
    }
}

/// The hosts file without any blocked section.
pub open spec fn without_sections(content: Seq<char>) -> Seq<char> {
    join(kept_lines(lines_of(content)), '\n')
}

/// Appends the entries of one domain.
fn push_entry(out: &mut String, domain: &str)
    ensures
        final(out)@ == old(out)@ + entry(domain@),
{
    push_line(out, "127.0.0.1 ", domain);
    push_line(out, "127.0.0.1 www.", domain);
    push_line(out, "::1 ", domain);
    push_line(out, "::1 www.", domain);
    proof {
        assert(out@ =~= old(out)@ + entry(domain@));
    }
}

/// Appends one line.
fn push_line(out: &mut String, address: &str, name: &str)
    ensures
        final(out)@ == old(out)@ + entry_line(address@, name@),
{
    out.append(address);
    out.append(name);
    out.push('\n');
    proof {
        assert(out@ =~= old(out)@ + entry_line(address@, name@));
    }
}

/// The blocked section for the domains.
pub fn block_section(domains: &Vec<String>) -> (r: String)
    ensures
        r@ == section(texts(domains@)),
{
    let ghost all = texts(domains@);
    let mut out: String = String::new();
    out.append(PlatformBlocker::marker_start());
    out.push('\n');
    let ghost head = start_mark().push('\n');
    let mut i: usize = 0;
    proof {
        assert(all.take(0) =~= Seq::<Seq<char>>::empty());
        assert(out@ =~= head + entries(all.take(0)));
    }
    while i < domains.len()
        invariant
            all == texts(domains@),
            i <= domains@.len(),
            out@ == head + entries(all.take(i as int)),
        decreases domains@.len() - i,
    {
        push_entry(&mut out, domains[i].as_str());
        proof {
            assert(all[i as int] == domains@[i as int]@);
            assert(all.take(i + 1).drop_last() =~= all.take(i as int));
            assert(out@ =~= head + entries(all.take(i + 1)));
        }
        i = i + 1;
    }
    out.append(PlatformBlocker::marker_end());
    out.push('\n');
    proof {
        assert(all.take(all.len() as int) =~= all);
        assert(out@ =~= section(all));
    }
    out
}

/// The hosts file with the section for the domains appended.
pub fn append_section(content: &str, domains: &Vec<String>) -> (r: String)
    ensures
        r@ == with_section(content@, texts(domains@)),
{
    let mut out: String = trim_end(content).to_string();
    out.push('\n');
    out.append(block_section(domains).as_str());
    out
}

/// The hosts file without any blocked section.
pub fn remove_sections(content: &str) -> (r: String)
    ensures
        r@ == without_sections(content@),
{
    let all = lines(content);
    let ghost ls = lines_of(content@);
    let mut kept: Vec<String> = Vec::new();
    let mut in_block: bool = false;
    let mut i: usize = 0;
    proof {
        assert(ls.take(0) =~= Seq::<Seq<char>>::empty());
        assert(texts(kept@) =~= kept_lines(ls.take(0)));
    }
    while i < all.len()
        invariant
            texts(all@) == ls,
            i <= all@.len(),
            in_block == in_section(ls.take(i as int)),
            texts(kept@) == kept_lines(ls.take(i as int)),
        decreases all@.len() - i,
    {
        let ghost held = kept@;
        let line = &all[i];
        proof {
            assert(ls[i as int] == line@);
            assert(ls.take(i + 1).drop_last() =~= ls.take(i as int));
            assert(ls.take(i + 1).last() == line@);
        }
        if contains(line.as_str(), PlatformBlocker::marker_start()) {
            in_block = true;
        } else if contains(line.as_str(), PlatformBlocker::marker_end()) {
            in_block = false;
        } else if !in_block {
            kept.push(line.clone());
            proof {
                assert(texts(kept@) =~= texts(held).push(line@));
            }
        }
        i = i + 1;
    }
    proof {
        assert(ls.take(ls.len() as int) =~= ls);
    }
    joined(&kept, '\n')
}

/// What is blocked by the hosts file, and whether it is blocked now.
#[derive(Debug)]
pub struct PlatformBlocker {
    pub blocked_domains: Vec<String>,
    pub is_blocking: bool,
}

/// The commands that make the system forget the names it has looked up.
pub open spec fn dns_flush_commands(platform: Platform) -> Seq<CommandView> {
    match platform {
        Platform::Windows => seq![
            CommandView { program: "ipconfig"@, args: seq!["/flushdns"@] },
        ],
        Platform::MacOs => seq![
            CommandView { program: "dscacheutil"@, args: seq!["-flushcache"@] },
            CommandView { program: "killall"@, args: seq!["-HUP"@, "mDNSResponder"@] },
        ],
        Platform::Other => Seq::empty(),
    }
}

/// The text of a file that may not be readable.
pub open spec fn text_or_empty(content: Option<String>) -> Seq<char> {
    match content {
        Some(text) => text@,
        None => Seq::empty(),
    }
}

impl PlatformBlocker {
    /// A blocker that blocks nothing yet, and what to write to the hosts file, given what it holds
    /// if it can be read: the sections that an earlier run left are cleared away.
    pub fn new(blocked_domains: Vec<String>, content: Option<String>) -> (r: (
        PlatformBlocker,
        Option<String>,
    ))
        ensures
            r.0 == (PlatformBlocker { blocked_domains, is_blocking: false }),
            r.1 is Some <==> content is Some,
            r.1 matches Some(text) ==> text@ == without_sections(content->0@),
    {
        let mut blocker = PlatformBlocker { blocked_domains, is_blocking: false };
        let text = blocker.flush_all(content);
        (blocker, text)
    }

    /// Where the hosts file stands.
    pub fn hosts_path(platform: Platform) -> (r: &'static str)
        ensures
            r@ == (if platform == Platform::Windows {
                "C:\\Windows\\System32\\drivers\\etc\\hosts"@
            } else {
                "/etc/hosts"@
            }),
    {
        match platform {
            Platform::Windows => "C:\\Windows\\System32\\drivers\\etc\\hosts",
            _ => "/etc/hosts",
        }
    }

    /// The line that opens the blocked section.
    pub fn marker_start() -> (r: &'static str)
        ensures
            r@ == start_mark(),
    {
        "# >>> STUDY-TIME BLOCK START <<<"
    }

    /// The line that closes the blocked section.
    pub fn marker_end() -> (r: &'static str)
        ensures
            r@ == end_mark(),
    {
        "# >>> STUDY-TIME BLOCK END <<<"
    }

    /// What to write to the hosts file in order to block, given what it holds if it can be read.
    /// Nothing is to be written while the domains are blocked already.
    pub fn block(&self, content: Option<String>) -> (r: Option<String>)
        ensures
            r is Some <==> !self.is_blocking,
            r matches Some(text) ==> text@ == with_section(
                text_or_empty(content),
                texts(self.blocked_domains@),
            ),
    {
        if self.is_blocking {
            return None;
        }
        let current = match content {
            Some(text) => text,
            None => String::new(),
        };
        Some(append_section(current.as_str(), &self.blocked_domains))
    }

    /// Takes note of whether the hosts file could be opened for that text, and gives the commands
    /// to run next: the domains count as blocked once it could.
    pub fn block_written(&mut self, opened: bool, platform: Platform) -> (r: Vec<Command>)
        ensures
            final(self).blocked_domains == old(self).blocked_domains,
            final(self).is_blocking == (old(self).is_blocking || opened),
            commands(r@) == (if opened {
                dns_flush_commands(platform)
            } else {
                Seq::empty()
            }),
    {
        let mut out: Vec<Command> = Vec::new();
        if opened {
            self.is_blocking = true;
            match platform {
                Platform::Windows => {
                    out.push(Command::new("ipconfig").arg("/flushdns"));
                },
                Platform::MacOs => {
                    out.push(Command::new("dscacheutil").arg("-flushcache"));
                    out.push(Command::new("killall").arg("-HUP").arg("mDNSResponder"));
                },
                Platform::Other => {},
            }
        }
        proof {
            if opened {
                let want = dns_flush_commands(platform);
                assert(commands(out@).len() == want.len());
                assert forall|k: int| 0 <= k < want.len() implies commands(out@)[k] == want[k] by {
                    assert(commands(out@)[k].args =~= want[k].args);
                }
                assert(commands(out@) =~= want);
            } else {
                assert(commands(out@) =~= Seq::<CommandView>::empty());
            }
        }
        out
    }

    /// What to write to the hosts file in order to remove every blocked section, given what it
    /// holds. Where it cannot be read nothing is written, and the domains stay as they were.
    pub fn flush_all(&mut self, content: Option<String>) -> (r: Option<String>)
        ensures
            r is Some <==> content is Some,
            r matches Some(text) ==> text@ == without_sections(content->0@),
            final(self).blocked_domains == old(self).blocked_domains,
            final(self).is_blocking == (old(self).is_blocking && content is None),
    {
        match content {
            Some(text) => {
                self.is_blocking = false;
                Some(remove_sections(text.as_str()))
            },
            None => None,
        }
    }

    /// What to write to the hosts file in order to stop blocking. The domains no longer count as
    /// blocked, whether or not the file could be read.
    pub fn unblock(&mut self, content: Option<String>) -> (r: Option<String>)
        ensures
            r is Some <==> content is Some,
            r matches Some(text) ==> text@ == without_sections(content->0@),
            final(self).blocked_domains == old(self).blocked_domains,
            !final(self).is_blocking,
    {
        let r = self.flush_all(content);
        self.is_blocking = false;
        r
    }
}

} // verus!
