//! What blocking does to the hosts file and what unblocking gives back.

use vstd::prelude::*;
use crate::hosts::{end_mark, entries, entry, entry_line, in_section, is_mark, kept_lines, section};
use crate::hosts::{start_mark, with_section, without_sections};
use crate::text::is_white_space;
use crate::text::{chomp, contains_text, join, lines_of, occurs_at, split, trimmed_end};
use crate::text_laws::{
    lemma_contains_across, lemma_contains_in_part, lemma_join_contains, lemma_join_split,
    lemma_lines_closed, lemma_split_across, lemma_split_last, lemma_split_no_return,
    lemma_split_pieces, lemma_split_single, lemma_trimmed_end, law_lines_are_read_one_by_one,
    law_trimming_takes_off_white_space,
};

verus! {

/// What the two marks look like, as far as the laws use it.
proof fn lemma_marks()
    ensures
        start_mark().len() > 0,
        end_mark().len() > 0,
        end_mark()[0] == '#',
        !start_mark().contains('\n'),
        !end_mark().contains('\n'),
        start_mark().last() != '\r',
        end_mark().last() != '\r',
{
    reveal_strlit("# >>> STUDY-TIME BLOCK START <<<");
    reveal_strlit("# >>> STUDY-TIME BLOCK END <<<");
}

/// Each mark is taken for a mark.
proof fn lemma_marks_are_marks()
    ensures
        contains_text(start_mark(), start_mark()),
        contains_text(end_mark(), end_mark()),
{
    assert(start_mark().subrange(0, start_mark().len() as int) =~= start_mark());
    assert(end_mark().subrange(0, end_mark().len() as int) =~= end_mark());
    assert(occurs_at(start_mark(), start_mark(), 0));
    assert(occurs_at(end_mark(), end_mark(), 0));
}

/// An address prefix, where it holds no `#`, adds no mark to a name.
proof fn lemma_named_line_clean(address: Seq<char>, name: Seq<char>, mark: Seq<char>)
    requires
        mark.len() > 0,
        mark[0] == '#',
        !address.contains('#'),
        !contains_text(name, mark),
    ensures
        !contains_text(address + name, mark),
{
    let s = address + name;
    if contains_text(s, mark) {
        let at = choose|at: int| occurs_at(s, mark, at);
        assert(s.subrange(at, at + mark.len())[0] == s[at]);
        if at < address.len() {
            assert(address[at] == '#');
        } else {
            let to = at - address.len();
            assert(name.subrange(to, to + mark.len()) =~= s.subrange(at, at + mark.len()));
            assert(occurs_at(name, mark, to));
        }
    }
}

/// Whether a text is empty or ends with a line feed.
spec fn closed_text(s: Seq<char>) -> bool {
    s.len() == 0 || s.last() == '\n'
}

/// A clean line behind a clean text that ends with a line feed makes a clean text.
proof fn lemma_line_behind_clean(
    s: Seq<char>,
    address: Seq<char>,
    name: Seq<char>,
    mark: Seq<char>,
)
    requires
        mark.len() > 0,
        mark[0] == '#',
        !mark.contains('\n'),
        !address.contains('#'),
        closed_text(s),
        !contains_text(s, mark),
        !contains_text(name, mark),
    ensures
        closed_text(s + entry_line(address, name)),
        !contains_text(s + entry_line(address, name), mark),
{
    lemma_named_line_clean(address, name, mark);
    let line = address + name;
    let all = s + entry_line(address, name);
    assert(all.last() == '\n');
    if contains_text(all, mark) {
        assert(all =~= (s + line).push('\n') + Seq::<char>::empty());
        lemma_contains_across(s + line, '\n', Seq::empty(), mark);
        lemma_empty_holds_nothing(mark);
        if s.len() == 0 {
            assert(s + line =~= line);
        } else {
            assert(s.drop_last().push('\n') + line =~= s + line);
            lemma_contains_across(s.drop_last(), '\n', line, mark);
            assert(s.subrange(0, s.len() - 1) =~= s.drop_last());
            lemma_contains_in_part(s, 0, s.len() - 1, mark);
        }
    }
}

/// The empty text holds no text that is not empty.
proof fn lemma_empty_holds_nothing(needle: Seq<char>)
    requires
        needle.len() > 0,
    ensures
        !contains_text(Seq::<char>::empty(), needle),
{
    assert forall|at: int| !occurs_at(Seq::<char>::empty(), needle, at) by {}
}

/// The entries of one domain, behind a clean text that ends with a line feed.
proof fn lemma_entry_behind_clean(s: Seq<char>, d: Seq<char>, mark: Seq<char>)
    requires
        mark.len() > 0,
        mark[0] == '#',
        !mark.contains('\n'),
        closed_text(s),
        !contains_text(s, mark),
        !contains_text(d, mark),
    ensures
        closed_text(s + entry(d)),
        !contains_text(s + entry(d), mark),
{
    lemma_addresses();
    let l1 = entry_line("127.0.0.1 "@, d);
    let l2 = entry_line("127.0.0.1 www."@, d);
    let l3 = entry_line("::1 "@, d);
    let l4 = entry_line("::1 www."@, d);
    lemma_line_behind_clean(s, "127.0.0.1 "@, d, mark);
    lemma_line_behind_clean(s + l1, "127.0.0.1 www."@, d, mark);
    lemma_line_behind_clean(s + l1 + l2, "::1 "@, d, mark);
    lemma_line_behind_clean(s + l1 + l2 + l3, "::1 www."@, d, mark);
    assert(s + entry(d) =~= s + l1 + l2 + l3 + l4);
}

/// The entries of domains that do not hold the mark do not hold it either.
proof fn lemma_entries_clean(domains: Seq<Seq<char>>, mark: Seq<char>)
    requires
        mark.len() > 0,
        mark[0] == '#',
        !mark.contains('\n'),
        forall|k: int| 0 <= k < domains.len() ==> !contains_text(#[trigger] domains[k], mark),
    ensures
        closed_text(entries(domains)),
        !contains_text(entries(domains), mark),
    decreases domains.len(),
{
    if domains.len() == 0 {
        lemma_empty_holds_nothing(mark);
    } else {
        let front = domains.drop_last();
        assert(!contains_text(domains[domains.len() - 1], mark));
        assert forall|k: int| 0 <= k < front.len() implies !contains_text(
            #[trigger] front[k],
            mark,
        ) by {
            assert(front[k] == domains[k]);
        }
        lemma_entries_clean(front, mark);
        lemma_entry_behind_clean(entries(front), domains.last(), mark);
    }
}

/// No address prefix holds a `#`.
proof fn lemma_addresses()
    ensures
        !"127.0.0.1 "@.contains('#'),
        !"127.0.0.1 www."@.contains('#'),
        !"::1 "@.contains('#'),
        !"::1 www."@.contains('#'),
{
    reveal_strlit("127.0.0.1 ");
    reveal_strlit("127.0.0.1 www.");
    reveal_strlit("::1 ");
    reveal_strlit("::1 www.");
}

/// Lines without an end mark, behind an open section, stay in it and are not kept.
proof fn lemma_section_swallows(head: Seq<Seq<char>>, body: Seq<Seq<char>>)
    requires
        in_section(head),
        forall|k: int| 0 <= k < body.len() ==> !contains_text(#[trigger] body[k], end_mark()),
    ensures
        in_section(head + body),
        kept_lines(head + body) == kept_lines(head),
    decreases body.len(),
{
    if body.len() == 0 {
        assert(head + body =~= head);
    } else {
        let front = body.drop_last();
        lemma_section_swallows(head, front);
        assert((head + body).drop_last() =~= head + front);
        assert((head + body).last() == body.last());
        assert(!contains_text(body[body.len() - 1], end_mark()));
    }
}

/// The lines of a text, a line feed and a closed text are the lines of both.
proof fn lemma_lines_across(t: Seq<char>, b: Seq<char>)
    ensures
        lines_of(t.push('\n') + b) == split(t, '\n').map_values(|p: Seq<char>| chomp(p))
            + lines_of(b),
{
    lemma_split_across(t, '\n', b);
    lemma_split_last(b, '\n');
    lemma_split_last(t, '\n');
    let f = |p: Seq<char>| chomp(p);
    let all = split(t.push('\n') + b, '\n');
    let left = split(t, '\n').map_values(f);
    let right = split(b, '\n');
    assert(all.drop_last() =~= split(t, '\n') + right.drop_last());
    assert(all.drop_last().map_values(f) =~= left + right.drop_last().map_values(f));
    assert(lines_of(t.push('\n') + b) =~= left + lines_of(b));
}

/// The lines of a section: the opening line, lines without the closing one, the closing line.
proof fn lemma_section_lines(opening: Seq<char>, e: Seq<char>, closing: Seq<char>) -> (body: Seq<
    Seq<char>,
>)
    requires
        opening.len() > 0,
        closing.len() > 0,
        !opening.contains('\n'),
        !closing.contains('\n'),
        opening.last() != '\r',
        closing.last() != '\r',
        closed_text(e),
        !contains_text(e, closing),
    ensures
        lines_of(opening.push('\n') + e + closing.push('\n')) == seq![opening] + body + seq![closing],
        forall|k: int| 0 <= k < body.len() ==> !contains_text(#[trigger] body[k], closing),
{
    let all = opening.push('\n') + e + closing.push('\n');
    let f = |p: Seq<char>| chomp(p);
    let end = closing.push('\n') + Seq::<char>::empty();
    let tail = e + end;
    assert(all =~= opening.push('\n') + tail);
    lemma_lines_across(opening, tail);
    lemma_split_single(opening, '\n');
    assert(split(opening, '\n').map_values(f) =~= seq![opening]);
    lemma_split_single(closing, '\n');
    assert(split(closing, '\n').map_values(f) =~= seq![closing]);
    lemma_lines_across(closing, Seq::empty());
    assert(lines_of(Seq::<char>::empty()) =~= Seq::<Seq<char>>::empty());
    assert(lines_of(end) =~= seq![closing]);
    if e.len() == 0 {
        assert(tail =~= end);
        let body = Seq::<Seq<char>>::empty();
        assert(lines_of(all) =~= seq![opening] + body + seq![closing]);
        body
    } else {
        let open = e.drop_last();
        assert(tail =~= open.push('\n') + end);
        lemma_lines_across(open, end);
        let pieces = split(open, '\n');
        let body = pieces.map_values(f);
        assert(lines_of(all) =~= seq![opening] + body + seq![closing]);
        assert(e.subrange(0, e.len() - 1) =~= open);
        if contains_text(open, closing) {
            lemma_contains_in_part(e, 0, e.len() - 1, closing);
        }
        lemma_split_pieces(open, '\n', closing);
        assert forall|k: int| 0 <= k < body.len() implies !contains_text(
            #[trigger] body[k],
            closing,
        ) by {
            let p = pieces[k];
            if contains_text(chomp(p), closing) {
                assert(p.subrange(0, chomp(p).len() as int) =~= chomp(p));
                lemma_contains_in_part(p, 0, chomp(p).len() as int, closing);
            }
        }
        body
    }
}

/// Whether removing the sections leaves nothing of the section for the domains. Something stays
/// only where a domain holds the end mark, and so ends the section too early.
pub open spec fn leaves_nothing(domains: Seq<Seq<char>>) -> bool {
    kept_lines(lines_of(section(domains))).len() == 0
}

/// What is kept of lines that start with a start mark does not depend on the lines before them.
proof fn lemma_kept_behind(first: Seq<Seq<char>>, ls: Seq<Seq<char>>)
    requires
        ls.len() > 0,
        contains_text(ls[0], start_mark()),
    ensures
        in_section(first + ls) == in_section(ls),
        kept_lines(first + ls) == kept_lines(first) + kept_lines(ls),
    decreases ls.len(),
{
    let front = ls.drop_last();
    assert((first + ls).drop_last() =~= first + front);
    assert((first + ls).last() == ls.last());
    if ls.len() == 1 {
        assert(front =~= Seq::<Seq<char>>::empty());
        assert(first + front =~= first);
        assert(is_mark(ls.last()));
        assert(kept_lines(front) =~= Seq::<Seq<char>>::empty());
        assert(kept_lines(ls) == kept_lines(front));
        assert(kept_lines(first + ls) =~= kept_lines(first) + kept_lines(ls));
    } else {
        lemma_kept_behind(first, front);
        assert(kept_lines(first + ls) =~= kept_lines(first) + kept_lines(ls));
    }
}

/// Nothing stays of the section for domains none of which holds the end mark.
pub proof fn law_section_leaves_nothing(domains: Seq<Seq<char>>)
    requires
        forall|k: int| 0 <= k < domains.len() ==> !contains_text(#[trigger] domains[k], end_mark()),
    ensures
        leaves_nothing(domains),
{
    lemma_marks_are_marks();
    let body = lemma_lines_of_section(domains);
    let opened = seq![start_mark()];
    assert(opened.drop_last() =~= Seq::<Seq<char>>::empty());
    reveal_with_fuel(kept_lines, 2);
    lemma_section_swallows(opened, body);
    let all = (opened + body).push(end_mark());
    assert(all.drop_last() =~= opened + body);
    assert(lines_of(section(domains)) =~= all);
}

/// The lines of a section start with the start mark, whatever the domains are.
proof fn lemma_section_starts(domains: Seq<Seq<char>>)
    ensures
        lines_of(section(domains)).len() > 0,
        lines_of(section(domains))[0] == start_mark(),
{
    lemma_marks();
    let tail = entries(domains) + end_mark().push('\n');
    assert(section(domains) =~= start_mark().push('\n') + tail);
    lemma_lines_across(start_mark(), tail);
    lemma_split_single(start_mark(), '\n');
    assert(split(start_mark(), '\n').map_values(|p: Seq<char>| chomp(p)) =~= seq![start_mark()]);
}

/// Removing the sections from a blocked hosts file gives what removing them from the file before
/// it was blocked gives, but for white space at its end. The law leaves out domains of whose
/// section something would stay.
pub proof fn law_unblock_undoes_block(content: Seq<char>, domains: Seq<Seq<char>>)
    requires
        leaves_nothing(domains),
    ensures
        without_sections(with_section(content, domains)) == without_sections(trimmed_end(content)),
{
    let t = trimmed_end(content);
    let first = split(t, '\n').map_values(|p: Seq<char>| chomp(p));
    lemma_lines_across(t, section(domains));
    lemma_section_starts(domains);
    lemma_marks_are_marks();
    lemma_kept_behind(first, lines_of(section(domains)));
    assert(kept_lines(first) + kept_lines(lines_of(section(domains))) =~= kept_lines(first));
    lemma_trimmed_end(content);
    lemma_lines_closed(t);
    if t.len() == 0 {
        lemma_blank_line();
        assert(t =~= Seq::<char>::empty());
    }
}

/// The lines of the section that blocks the domains.
proof fn lemma_lines_of_section(domains: Seq<Seq<char>>) -> (body: Seq<Seq<char>>)
    requires
        forall|k: int| 0 <= k < domains.len() ==> !contains_text(#[trigger] domains[k], end_mark()),
    ensures
        lines_of(section(domains)) == seq![start_mark()] + body + seq![end_mark()],
        forall|k: int| 0 <= k < body.len() ==> !contains_text(#[trigger] body[k], end_mark()),
{
    lemma_marks();
    lemma_entries_clean(domains, end_mark());
    lemma_section_lines(start_mark(), entries(domains), end_mark())
}

/// An empty line, kept alone, reads like no line at all.
proof fn lemma_blank_line()
    ensures
        lines_of(Seq::<char>::empty()) == Seq::<Seq<char>>::empty(),
        join(kept_lines(seq![Seq::<char>::empty()]), '\n') == join(
            kept_lines(Seq::<Seq<char>>::empty()),
            '\n',
        ),
{
    lemma_marks();
    lemma_empty_holds_nothing(start_mark());
    lemma_empty_holds_nothing(end_mark());
    let blank = seq![Seq::<char>::empty()];
    assert(lines_of(Seq::<char>::empty()) =~= Seq::<Seq<char>>::empty());
    assert(blank.drop_last() =~= Seq::<Seq<char>>::empty());
    assert(blank.last() == Seq::<char>::empty());
    assert(!is_mark(blank.last()));
    reveal_with_fuel(kept_lines, 2);
    assert(kept_lines(blank) =~= blank);
}

/// Lines among which no mark stands are all kept.
proof fn lemma_unmarked_kept(ls: Seq<Seq<char>>)
    requires
        forall|k: int| 0 <= k < ls.len() ==> !is_mark(#[trigger] ls[k]),
    ensures
        !in_section(ls),
        kept_lines(ls) == ls,
    decreases ls.len(),
{
    if ls.len() > 0 {
        let front = ls.drop_last();
        assert forall|k: int| 0 <= k < front.len() implies !is_mark(#[trigger] front[k]) by {
            assert(front[k] == ls[k]);
        }
        lemma_unmarked_kept(front);
        assert(!is_mark(ls[ls.len() - 1]));
        assert(front.push(ls.last()) =~= ls);
    }
}

/// No line of a text without a mark is a mark.
proof fn lemma_unmarked_lines(s: Seq<char>)
    requires
        !is_mark(s),
    ensures
        forall|k: int| 0 <= k < lines_of(s).len() ==> !is_mark(#[trigger] lines_of(s)[k]),
{
    lemma_split_pieces(s, '\n', start_mark());
    lemma_split_pieces(s, '\n', end_mark());
    lemma_split_last(s, '\n');
    let pieces = split(s, '\n');
    let ls = lines_of(s);
    assert forall|k: int| 0 <= k < ls.len() implies !is_mark(#[trigger] ls[k]) by {
        let p = pieces[k];
        assert(ls[k] == p || ls[k] == chomp(p));
        if is_mark(chomp(p)) {
            assert(p.subrange(0, chomp(p).len() as int) =~= chomp(p));
            if contains_text(chomp(p), start_mark()) {
                lemma_contains_in_part(p, 0, chomp(p).len() as int, start_mark());
            } else {
                lemma_contains_in_part(p, 0, chomp(p).len() as int, end_mark());
            }
        }
    }
}

/// A hosts file that holds no mark keeps every line when the sections are removed.
pub proof fn law_other_lines_stay(content: Seq<char>)
    requires
        !is_mark(content),
    ensures
        without_sections(content) == join(lines_of(content), '\n'),
{
    lemma_unmarked_lines(content);
    lemma_unmarked_kept(lines_of(content));
}

/// Blocking and then removing the sections gives a hosts file back as it was, but for white space
/// at its end. The law leaves out files that hold a mark, files with a carriage return before a line
/// feed in what is not such white space, which comes back as a line feed alone, and domains of
/// whose section something would stay.
pub proof fn law_hosts_file_restored(content: Seq<char>, domains: Seq<Seq<char>>)
    requires
        !is_mark(content),
        forall|i: int|
            0 <= i < trimmed_end(content).len() - 1 && trimmed_end(content)[i] == '\r' ==> (
            #[trigger] trimmed_end(content)[i + 1]) != '\n',
        leaves_nothing(domains),
    ensures
        without_sections(with_section(content, domains)) == trimmed_end(content),
{
    let t = trimmed_end(content);
    law_unblock_undoes_block(content, domains);
    lemma_trimmed_end(content);
    assert(content.subrange(0, t.len() as int) =~= t);
    if is_mark(t) {
        if contains_text(t, start_mark()) {
            lemma_contains_in_part(content, 0, t.len() as int, start_mark());
        } else {
            lemma_contains_in_part(content, 0, t.len() as int, end_mark());
        }
    }
    law_other_lines_stay(t);
    lemma_split_no_return(t);
    lemma_split_last(t, '\n');
    lemma_lines_closed(t);
    let pieces = split(t, '\n');
    if t.len() == 0 {
        assert(lines_of(t) =~= Seq::<Seq<char>>::empty());
        assert(t =~= Seq::<char>::empty());
    } else {
        let chomped = pieces.map_values(|p: Seq<char>| chomp(p));
        assert(chomp(pieces.last()) == pieces.last()) by {
            if pieces.last().len() > 0 {
                assert(pieces.last().last() == t.last());
            }
        }
        assert forall|k: int| 0 <= k < pieces.len() implies chomped[k] == #[trigger] pieces[k] by {}
        assert(chomped =~= pieces);
        lemma_join_split(t, '\n');
    }
}

/// No line that is kept is a mark.
proof fn lemma_kept_unmarked(ls: Seq<Seq<char>>)
    ensures
        forall|k: int| 0 <= k < kept_lines(ls).len() ==> !is_mark(#[trigger] kept_lines(ls)[k]),
    decreases ls.len(),
{
    if ls.len() > 0 {
        let front = ls.drop_last();
        lemma_kept_unmarked(front);
        let kept = kept_lines(ls);
        assert forall|k: int| 0 <= k < kept.len() implies !is_mark(#[trigger] kept[k]) by {
            if k < kept_lines(front).len() {
                assert(kept[k] == kept_lines(front)[k]);
            }
        }
    }
}

/// A hosts file from which the sections were removed holds no mark, whatever it held before.
pub proof fn law_no_mark_is_left(content: Seq<char>)
    ensures
        !is_mark(without_sections(content)),
{
    lemma_marks();
    let kept = kept_lines(lines_of(content));
    lemma_kept_unmarked(lines_of(content));
    if contains_text(without_sections(content), start_mark()) {
        lemma_join_contains(kept, '\n', start_mark());
    }
    if contains_text(without_sections(content), end_mark()) {
        lemma_join_contains(kept, '\n', end_mark());
    }
}

/// The entry of each domain stands in the entries.
proof fn lemma_entry_listed(domains: Seq<Seq<char>>, k: int)
    requires
        0 <= k < domains.len(),
    ensures
        contains_text(entries(domains), entry(domains[k])),
    decreases domains.len(),
{
    let front = domains.drop_last();
    let all = entries(domains);
    let head = entries(front);
    if k == domains.len() - 1 {
        assert(all.subrange(head.len() as int, all.len() as int) =~= entry(domains[k]));
        assert(occurs_at(all, entry(domains[k]), head.len() as int));
    } else {
        lemma_entry_listed(front, k);
        assert(all.subrange(0, head.len() as int) =~= head);
        lemma_contains_in_part(all, 0, head.len() as int, entry(domains[k]));
    }
}

/// A blocked hosts file holds the four lines of every domain.
pub proof fn law_every_domain_is_blocked(content: Seq<char>, domains: Seq<Seq<char>>, k: int)
    requires
        0 <= k < domains.len(),
    ensures
        contains_text(with_section(content, domains), entry(domains[k])),
{
    lemma_entry_listed(domains, k);
    let all = with_section(content, domains);
    let e = entries(domains);
    let from: int = trimmed_end(content).len() + 1 + start_mark().len() + 1int;
    assert(all.subrange(from, from + e.len()) =~= e);
    lemma_contains_in_part(all, from, from + e.len(), entry(domains[k]));
}

/// Whether a text holds the line that opens a section.
pub open spec fn opens(s: Seq<char>) -> bool {
    contains_text(s, "# >>> STUDY-TIME BLOCK START <<<"@)
}

/// Whether a text holds the line that closes a section.
pub open spec fn closes(s: Seq<char>) -> bool {
    contains_text(s, "# >>> STUDY-TIME BLOCK END <<<"@)
}

/// Whether no line opens or closes a section.
pub open spec fn all_plain(ls: Seq<Seq<char>>) -> bool {
    forall|k: int| 0 <= k < ls.len() ==> !opens(#[trigger] ls[k]) && !closes(ls[k])
}

/// Behind lines that leave no section open, what is kept does not depend on these lines.
proof fn lemma_kept_outside(head: Seq<Seq<char>>, after: Seq<Seq<char>>)
    requires
        !in_section(head),
    ensures
        in_section(head + after) == in_section(after),
        kept_lines(head + after) == kept_lines(head) + kept_lines(after),
    decreases after.len(),
{
    if after.len() == 0 {
        assert(head + after =~= head);
        assert(kept_lines(head) + kept_lines(after) =~= kept_lines(head));
    } else {
        let front = after.drop_last();
        lemma_kept_outside(head, front);
        assert((head + after).drop_last() =~= head + front);
        assert((head + after).last() == after.last());
        assert(kept_lines(head + after) =~= kept_lines(head) + kept_lines(after));
    }
}

/// Every line that neither opens nor closes a section and stands in none is kept, in order: those
/// before the first section, and behind a section that was closed all that would be kept without
/// what came before. What stands from an opening line to the next closing one is not.
pub proof fn law_lines_outside_sections_are_kept(
    before: Seq<Seq<char>>,
    opening: Seq<char>,
    body: Seq<Seq<char>>,
    closing: Seq<char>,
    after: Seq<Seq<char>>,
)
    requires
        all_plain(before),
        opens(opening),
        forall|k: int| 0 <= k < body.len() ==> !closes(#[trigger] body[k]) || opens(body[k]),
        closes(closing),
        !opens(closing),
    ensures
        kept_lines(before) == before,
        kept_lines(before + seq![opening] + body) == before,
        kept_lines(before + seq![opening] + body + seq![closing] + after) == before + kept_lines(
            after,
        ),
        kept_lines(before + seq![closing] + after) == before + kept_lines(after),
        all_plain(after) ==> kept_lines(
            before + seq![opening] + body + seq![closing] + after,
        ) == before + after,
{
    assert forall|k: int| 0 <= k < before.len() implies !is_mark(#[trigger] before[k]) by {}
    lemma_unmarked_kept(before);
    let opened = before + seq![opening];
    assert(opened.drop_last() =~= before);
    assert(opened.last() == opening);
    assert(in_section(opened));
    assert(kept_lines(opened) == before);
    lemma_body_swallowed(opened, body);
    let closed = opened + body + seq![closing];
    assert(closed.drop_last() =~= opened + body);
    assert(closed.last() == closing);
    assert(!in_section(closed));
    assert(kept_lines(closed) == before);
    lemma_kept_outside(closed, after);
    let stray = before + seq![closing];
    assert(stray.drop_last() =~= before);
    assert(stray.last() == closing);
    lemma_kept_outside(stray, after);
    if all_plain(after) {
        assert forall|k: int| 0 <= k < after.len() implies !is_mark(#[trigger] after[k]) by {}
        lemma_unmarked_kept(after);
    }
}

/// Lines none of which closes a section alone, behind an open section, stay in it and are not kept.
proof fn lemma_body_swallowed(head: Seq<Seq<char>>, body: Seq<Seq<char>>)
    requires
        in_section(head),
        forall|k: int| 0 <= k < body.len() ==> !closes(#[trigger] body[k]) || opens(body[k]),
    ensures
        in_section(head + body),
        kept_lines(head + body) == kept_lines(head),
    decreases body.len(),
{
    if body.len() == 0 {
        assert(head + body =~= head);
    } else {
        let front = body.drop_last();
        assert forall|k: int| 0 <= k < front.len() implies !closes(#[trigger] front[k]) || opens(
            front[k],
        ) by {
            assert(front[k] == body[k]);
        }
        lemma_body_swallowed(head, front);
        assert((head + body).drop_last() =~= head + front);
        assert((head + body).last() == body.last());
        assert(!closes(body[body.len() - 1]) || opens(body[body.len() - 1]));
    }
}

/// The lines of a text that is empty or ends with a line feed, and of what follows, are the lines of
/// both.
proof fn lemma_lines_of_both(a: Seq<char>, b: Seq<char>)
    requires
        a.len() == 0 || a.last() == '\n',
    ensures
        lines_of(a + b) == lines_of(a) + lines_of(b),
{
    lemma_blank_line();
    if a.len() == 0 {
        assert(a =~= Seq::<char>::empty());
        assert(a + b =~= b);
        assert(lines_of(a) + lines_of(b) =~= lines_of(b));
    } else {
        let t = a.drop_last();
        assert(a =~= t.push('\n'));
        lemma_lines_across(t, b);
        lemma_lines_across(t, Seq::empty());
        assert(t.push('\n') + Seq::<char>::empty() =~= a);
        let head = split(t, '\n').map_values(|p: Seq<char>| chomp(p));
        assert(head + Seq::<Seq<char>>::empty() =~= head);
    }
}

/// No line of a text without a mark opens or closes a section.
proof fn lemma_plain_lines(s: Seq<char>)
    requires
        !opens(s),
        !closes(s),
    ensures
        all_plain(lines_of(s)),
{
    lemma_unmarked_lines(s);
    let ls = lines_of(s);
    assert forall|k: int| 0 <= k < ls.len() implies !opens(#[trigger] ls[k]) && !closes(ls[k]) by {
        assert(!is_mark(ls[k]));
    }
}

/// The lines of a section, in the terms in which lines are told apart.
proof fn lemma_parts_of_section(domains: Seq<Seq<char>>) -> (body: Seq<Seq<char>>)
    requires
        forall|k: int| 0 <= k < domains.len() ==> !closes(#[trigger] domains[k]),
    ensures
        lines_of(section(domains)) == seq![start_mark()] + body + seq![end_mark()],
        forall|k: int| 0 <= k < body.len() ==> !closes(#[trigger] body[k]) || opens(body[k]),
        opens(start_mark()),
        closes(end_mark()),
        !opens(end_mark()),
        section(domains).last() == '\n',
        section(domains).len() > 0,
{
    assert forall|k: int| 0 <= k < domains.len() implies !contains_text(
        #[trigger] domains[k],
        end_mark(),
    ) by {
        assert(!closes(domains[k]));
    }
    let body = lemma_lines_of_section(domains);
    lemma_marks_are_marks();
    lemma_marks_differ();
    assert forall|k: int| 0 <= k < body.len() implies !closes(#[trigger] body[k]) || opens(
        body[k],
    ) by {
        assert(!contains_text(body[k], end_mark()));
    }
    body
}

/// Brackets around parts of a list do not matter.
proof fn lemma_regroup(
    first: Seq<Seq<char>>,
    x: Seq<char>,
    body: Seq<Seq<char>>,
    y: Seq<char>,
    last: Seq<Seq<char>>,
)
    ensures
        (first + (seq![x] + body + seq![y])) + last == first + seq![x] + body + seq![y] + last,
{
    assert((first + (seq![x] + body + seq![y])) + last =~= first + seq![x] + body + seq![y] + last);
}

/// Removing the section from a hosts file gives every line before it and every line behind it back,
/// whatever was written there while the domains were blocked. The law leaves out files with further
/// marks, and domains that hold the line that closes a section.
pub proof fn law_lines_around_a_section_stay(
    before: Seq<char>,
    domains: Seq<Seq<char>>,
    after: Seq<char>,
)
    requires
        before.len() == 0 || before.last() == '\n',
        !opens(before) && !closes(before),
        !opens(after) && !closes(after),
        forall|k: int| 0 <= k < domains.len() ==> !closes(#[trigger] domains[k]),
    ensures
        without_sections(before + section(domains) + after) == join(
            lines_of(before) + lines_of(after),
            '\n',
        ),
{
    let body = lemma_parts_of_section(domains);
    let mid = section(domains);
    let first = lines_of(before);
    let last = lines_of(after);
    lemma_lines_of_both(before, mid);
    assert((before + mid).last() == '\n');
    lemma_lines_of_both(before + mid, after);
    lemma_plain_lines(before);
    lemma_plain_lines(after);
    lemma_regroup(first, start_mark(), body, end_mark(), last);
    law_lines_outside_sections_are_kept(first, start_mark(), body, end_mark(), last);
}

/// The line that closes a section does not open one.
proof fn lemma_marks_differ()
    ensures
        !contains_text(end_mark(), start_mark()),
{
    reveal_strlit("# >>> STUDY-TIME BLOCK START <<<");
    reveal_strlit("# >>> STUDY-TIME BLOCK END <<<");
    assert forall|at: int| !occurs_at(end_mark(), start_mark(), at) by {}
}

/// Lines as they are written to a file: each with a line feed behind it.
pub open spec fn written(ls: Seq<Seq<char>>) -> Seq<char>
    decreases ls.len(),
{
    if ls.len() == 0 {
        Seq::empty()
    } else {
        written(ls.drop_last()) + ls.last().push('\n')
    }
}

/// Lines that are written are read back as they are, as long as they hold no line feed and end in no
/// carriage return.
pub proof fn law_written_lines_are_read(ls: Seq<Seq<char>>)
    requires
        forall|k: int|
            0 <= k < ls.len() ==> !(#[trigger] ls[k]).contains('\n') && (ls[k].len() == 0
                || ls[k].last() != '\r'),
    ensures
        lines_of(written(ls)) == ls,
        written(ls).len() == 0 || written(ls).last() == '\n',
    decreases ls.len(),
{
    lemma_blank_line();
    if ls.len() == 0 {
        assert(ls =~= Seq::<Seq<char>>::empty());
    } else {
        let front = ls.drop_last();
        let line = ls[ls.len() - 1];
        assert forall|k: int| 0 <= k < front.len() implies !(#[trigger] front[k]).contains('\n') && (
        front[k].len() == 0 || front[k].last() != '\r') by {
            assert(front[k] == ls[k]);
        }
        law_written_lines_are_read(front);
        lemma_lines_of_both(written(front), line.push('\n'));
        law_lines_are_read_one_by_one(line, Seq::empty());
        assert(line.push('\n') + Seq::<char>::empty() =~= line.push('\n'));
        assert(seq![line] + Seq::<Seq<char>>::empty() =~= seq![line]);
        assert(ls =~= front + seq![line]);
        assert(written(ls).last() == '\n');
    }
}

/// Lists that are written one behind the other are written as one.
proof fn lemma_written_both(a: Seq<Seq<char>>, b: Seq<Seq<char>>)
    ensures
        written(a + b) == written(a) + written(b),
    decreases b.len(),
{
    if b.len() == 0 {
        assert(a + b =~= a);
        assert(written(a) + written(b) =~= written(a));
    } else {
        let front = b.drop_last();
        lemma_written_both(a, front);
        assert((a + b).drop_last() =~= a + front);
        assert((a + b).last() == b.last());
        assert(written(a + b) =~= written(a) + written(b));
    }
}

/// The lines that block the domains: four for each, in order. Two send the domain and its `www.`
/// name to this machine over the one address family, two over the other.
pub open spec fn blocking_lines(domains: Seq<Seq<char>>) -> Seq<Seq<char>> {
    Seq::new(
        4 * domains.len(),
        |i: int|
            (if i % 4 == 0 {
                "127.0.0.1 "@
            } else if i % 4 == 1 {
                "127.0.0.1 www."@
            } else if i % 4 == 2 {
                "::1 "@
            } else {
                "::1 www."@
            }) + domains[i / 4],
    )
}

/// The entries are the blocking lines as they are written.
proof fn lemma_entries_written(domains: Seq<Seq<char>>)
    ensures
        entries(domains) == written(blocking_lines(domains)),
    decreases domains.len(),
{
    let all = blocking_lines(domains);
    if domains.len() == 0 {
        assert(all =~= Seq::<Seq<char>>::empty());
    } else {
        let front = domains.drop_last();
        let d = domains.last();
        let four = seq![
            "127.0.0.1 "@ + d,
            "127.0.0.1 www."@ + d,
            "::1 "@ + d,
            "::1 www."@ + d,
        ];
        lemma_entries_written(front);
        assert(all.len() == blocking_lines(front).len() + 4);
        assert forall|i: int| 0 <= i < all.len() implies #[trigger] all[i] == (blocking_lines(front)
            + four)[i] by {
            if i < 4 * front.len() {
                assert(i / 4 < front.len());
                assert(domains[i / 4] == front[i / 4]);
            } else {
                assert(i / 4 == front.len());
                assert(i % 4 == i - 4 * front.len());
            }
        }
        assert(all =~= blocking_lines(front) + four);
        lemma_written_both(blocking_lines(front), four);
        reveal_with_fuel(written, 5);
        assert(four.drop_last() =~= seq![four[0], four[1], four[2]]);
        assert(four.drop_last().drop_last() =~= seq![four[0], four[1]]);
        assert(four.drop_last().drop_last().drop_last() =~= seq![four[0]]);
        assert(four.drop_last().drop_last().drop_last().drop_last() =~= Seq::<Seq<char>>::empty());
        assert(written(four) =~= entry(d));
    }
}

/// A blocked hosts file is the file as it was, without white space at its end, and behind it on lines
/// of their own the line that opens a section, the four lines of every domain in the order of the
/// list, and the line that closes the section. Nothing else is added.
pub proof fn law_blocked_file_is_the_file_and_the_section(
    content: Seq<char>,
    white: Seq<char>,
    domains: Seq<Seq<char>>,
)
    requires
        content.len() > 0 ==> !is_white_space(content.last()),
        forall|i: int| 0 <= i < white.len() ==> is_white_space(#[trigger] white[i]),
    ensures
        with_section(content + white, domains) == content + seq!['\n'] + written(
            seq!["# >>> STUDY-TIME BLOCK START <<<"@] + blocking_lines(domains)
                + seq!["# >>> STUDY-TIME BLOCK END <<<"@],
        ),
{
    law_trimming_takes_off_white_space(content, white);
    lemma_entries_written(domains);
    let opening = seq![start_mark()];
    let closing = seq![end_mark()];
    lemma_written_both(opening, blocking_lines(domains));
    lemma_written_both(opening + blocking_lines(domains), closing);
    reveal_with_fuel(written, 2);
    assert(opening.drop_last() =~= Seq::<Seq<char>>::empty());
    assert(closing.drop_last() =~= Seq::<Seq<char>>::empty());
    assert(written(opening) =~= start_mark().push('\n'));
    assert(written(closing) =~= end_mark().push('\n'));
    assert(with_section(content + white, domains) =~= content + seq!['\n'] + (written(opening)
        + written(blocking_lines(domains)) + written(closing)));
}

/// What the user writes behind the section while the domains are blocked is there when they no longer
/// are, behind what the file held before. The law leaves out files and additions with marks, and
/// domains that hold the line that closes a section.
pub proof fn law_lines_added_while_blocked_stay(
    content: Seq<char>,
    domains: Seq<Seq<char>>,
    added: Seq<Seq<char>>,
)
    requires
        content.len() > 0,
        !is_white_space(content.last()),
        !opens(content.push('\n')) && !closes(content.push('\n')),
        !opens(written(added)) && !closes(written(added)),
        forall|k: int| 0 <= k < domains.len() ==> !closes(#[trigger] domains[k]),
        forall|k: int|
            0 <= k < added.len() ==> !(#[trigger] added[k]).contains('\n') && (added[k].len() == 0
                || added[k].last() != '\r'),
    ensures
        without_sections(with_section(content, domains) + written(added)) == join(
            lines_of(content.push('\n')) + added,
            '\n',
        ),
{
    law_trimming_takes_off_white_space(content, Seq::empty());
    assert(content + Seq::<char>::empty() =~= content);
    law_written_lines_are_read(added);
    law_lines_around_a_section_stay(content.push('\n'), domains, written(added));
    assert(with_section(content, domains) + written(added) =~= content.push('\n') + section(domains)
        + written(added));
}

/// Removing the sections from a file of lines leaves the lines that are kept, each two with one line
/// feed between them, whether or not the last line of the file had its end.
pub proof fn law_file_is_what_is_kept_of_its_lines(ls: Seq<Seq<char>>, last: Seq<char>)
    requires
        forall|k: int|
            0 <= k < ls.len() ==> !(#[trigger] ls[k]).contains('\n') && (ls[k].len() == 0
                || ls[k].last() != '\r'),
        last.len() > 0,
        !last.contains('\n'),
    ensures
        without_sections(written(ls)) == join(kept_lines(ls), '\n'),
        without_sections(written(ls) + last) == join(kept_lines(ls.push(last)), '\n'),
{
    law_written_lines_are_read(ls);
    lemma_lines_of_both(written(ls), last);
    law_lines_are_read_one_by_one(last, Seq::empty());
    assert(ls + seq![last] =~= ls.push(last));
}

} // verus!
