//! Facts about splitting, joining and searching texts.

use vstd::prelude::*;
use crate::text::{chomp, contains_text, join, lines_of, occurs_at, split, texts, trimmed_end};
use crate::text::{digit, is_white_space, numeral, two_digits};

verus! {

/// An occurrence in a part of a text is an occurrence in the text.
pub proof fn lemma_contains_in_part(s: Seq<char>, from: int, to: int, needle: Seq<char>)
    requires
        0 <= from <= to <= s.len(),
        contains_text(s.subrange(from, to), needle),
    ensures
        contains_text(s, needle),
{
    let part = s.subrange(from, to);
    let at = choose|at: int| occurs_at(part, needle, at);
    assert(s.subrange(from + at, from + at + needle.len()) =~= part.subrange(
        at,
        at + needle.len(),
    ));
    assert(occurs_at(s, needle, from + at));
}

/// A text without `sep` that occurs in `a`, `sep`, `b` occurs in `a` or in `b`.
pub proof fn lemma_contains_across(a: Seq<char>, sep: char, b: Seq<char>, needle: Seq<char>)
    requires
        contains_text(a.push(sep) + b, needle),
        !needle.contains(sep),
    ensures
        contains_text(a, needle) || contains_text(b, needle),
{
    let s = a.push(sep) + b;
    let at = choose|at: int| occurs_at(s, needle, at);
    let part = s.subrange(at, at + needle.len());
    if at + needle.len() <= a.len() {
        assert(a.subrange(at, at + needle.len()) =~= part);
        assert(occurs_at(a, needle, at));
    } else if at > a.len() {
        let to = at - a.len() - 1;
        assert(b.subrange(to, to + needle.len()) =~= part);
        assert(occurs_at(b, needle, to));
    } else if needle.len() == 0 {
        assert(a.subrange(0, 0) =~= needle);
        assert(occurs_at(a, needle, 0));
    } else {
        assert(part[a.len() - at] == s[a.len() as int]);
        assert(needle[a.len() - at] == sep);
    }
}

/// There is always a piece, and the last one ends the text.
pub proof fn lemma_split_last(s: Seq<char>, sep: char)
    ensures
        split(s, sep).len() > 0,
        split(s, sep).last().len() <= s.len(),
        s.skip(s.len() - split(s, sep).last().len()) == split(s, sep).last(),
    decreases s.len(),
{
    if s.len() > 0 {
        let d = s.drop_last();
        lemma_split_last(d, sep);
        let last = split(d, sep).last();
        if s.last() == sep {
            assert(s.skip(s.len() as int) =~= Seq::<char>::empty());
        } else {
            let from = d.len() - last.len();
            assert(s.skip(from) =~= d.skip(from).push(s.last()));
            assert(split(s, sep).last() == last.push(s.last()));
        }
    } else {
        assert(s.skip(0) =~= Seq::<char>::empty());
    }
}

/// No piece holds a text that the whole does not hold.
pub proof fn lemma_split_pieces(s: Seq<char>, sep: char, needle: Seq<char>)
    requires
        !contains_text(s, needle),
    ensures
        forall|k: int|
            0 <= k < split(s, sep).len() ==> !contains_text(#[trigger] split(s, sep)[k], needle),
    decreases s.len(),
{
    lemma_split_last(s, sep);
    let pieces = split(s, sep);
    if contains_text(pieces.last(), needle) {
        let from = s.len() - pieces.last().len();
        assert(s.subrange(from, s.len() as int) =~= s.skip(from));
        lemma_contains_in_part(s, from, s.len() as int, needle);
    }
    if s.len() > 0 {
        let d = s.drop_last();
        if contains_text(d, needle) {
            assert(s.subrange(0, d.len() as int) =~= d);
            lemma_contains_in_part(s, 0, d.len() as int, needle);
        }
        lemma_split_pieces(d, sep, needle);
        let init = split(d, sep);
        lemma_split_last(d, sep);
        assert forall|k: int| 0 <= k < pieces.len() implies !contains_text(
            #[trigger] pieces[k],
            needle,
        ) by {
            if k < pieces.len() - 1 {
                assert(pieces[k] == init[k]);
            }
        }
    }
}

/// Splitting `a`, `sep`, `b` splits both sides.
pub proof fn lemma_split_across(a: Seq<char>, sep: char, b: Seq<char>)
    ensures
        split(a.push(sep) + b, sep) == split(a, sep) + split(b, sep),
    decreases b.len(),
{
    lemma_split_last(b, sep);
    if b.len() == 0 {
        let s = a.push(sep) + b;
        assert(s.drop_last() =~= a);
        assert(s.last() == sep);
        assert(split(s, sep) =~= split(a, sep) + split(b, sep));
    } else {
        let s = a.push(sep) + b;
        let d = b.drop_last();
        lemma_split_across(a, sep, d);
        lemma_split_last(d, sep);
        assert(s.drop_last() =~= a.push(sep) + d);
        assert(s.last() == b.last());
        let init = split(s.drop_last(), sep);
        assert(init == split(a, sep) + split(d, sep));
        assert(init.last() == split(d, sep).last());
        assert(split(s, sep) =~= split(a, sep) + split(b, sep));
    }
}

/// A text without the separator is one piece.
pub proof fn lemma_split_single(s: Seq<char>, sep: char)
    requires
        !s.contains(sep),
    ensures
        split(s, sep) == seq![s],
    decreases s.len(),
{
    if s.len() > 0 {
        let d = s.drop_last();
        assert forall|i: int| 0 <= i < d.len() implies d[i] != sep by {
            assert(s.contains(s[i]));
        }
        lemma_split_single(d, sep);
        assert(s.contains(s.last()));
        assert(d.push(s.last()) =~= s);
        assert(split(s, sep) =~= seq![s]);
    } else {
        assert(s =~= Seq::<char>::empty());
    }
}

/// Joining is undone from the right: the last piece stands behind what the others make.
pub proof fn lemma_join_push(pieces: Seq<Seq<char>>, sep: char, piece: Seq<char>)
    ensures
        join(pieces.push(piece), sep) == if pieces.len() == 0 {
            piece
        } else {
            join(pieces, sep).push(sep) + piece
        },
{
    assert(pieces.push(piece).drop_last() =~= pieces);
}

/// Joining the pieces of a text gives the text back.
pub proof fn lemma_join_split(s: Seq<char>, sep: char)
    ensures
        join(split(s, sep), sep) == s,
    decreases s.len(),
{
    lemma_split_last(s, sep);
    if s.len() > 0 {
        let d = s.drop_last();
        lemma_join_split(d, sep);
        lemma_split_last(d, sep);
        let init = split(d, sep);
        if s.last() == sep {
            lemma_join_push(init, sep, Seq::empty());
            assert(d.push(sep) + Seq::<char>::empty() =~= s);
        } else {
            let front = init.drop_last();
            assert(front.push(init.last()) =~= init);
            lemma_join_push(front, sep, init.last());
            lemma_join_push(front, sep, init.last().push(s.last()));
            assert(split(s, sep) == front.push(init.last().push(s.last())));
            if front.len() == 0 {
                assert(d == init.last());
                assert(d.push(s.last()) =~= s);
            } else {
                let head = join(front, sep).push(sep);
                assert(d == head + init.last());
                assert(head + init.last().push(s.last()) =~= d.push(s.last()));
                assert(d.push(s.last()) =~= s);
            }
        }
    } else {
        assert(s =~= Seq::<char>::empty());
    }
}

/// A text without `sep` that occurs in joined pieces occurs in one of them.
pub proof fn lemma_join_contains(pieces: Seq<Seq<char>>, sep: char, needle: Seq<char>)
    requires
        contains_text(join(pieces, sep), needle),
        !needle.contains(sep),
        needle.len() > 0,
    ensures
        exists|k: int| 0 <= k < pieces.len() && contains_text(#[trigger] pieces[k], needle),
    decreases pieces.len(),
{
    if pieces.len() == 0 {
        let at = choose|at: int| occurs_at(join(pieces, sep), needle, at);
        assert(false);
    } else if pieces.len() == 1 {
        assert(contains_text(pieces[0], needle));
    } else {
        let front = pieces.drop_last();
        lemma_contains_across(join(front, sep), sep, pieces.last(), needle);
        if contains_text(join(front, sep), needle) {
            lemma_join_contains(front, sep, needle);
            let k = choose|k: int|
                0 <= k < front.len() && contains_text(#[trigger] front[k], needle);
            assert(pieces[k] == front[k]);
        } else {
            assert(contains_text(pieces[pieces.len() - 1], needle));
        }
    }
}

/// A trimmed text is a start of the text and does not end in white space.
pub proof fn lemma_trimmed_end(s: Seq<char>)
    ensures
        trimmed_end(s).len() <= s.len(),
        trimmed_end(s) == s.take(trimmed_end(s).len() as int),
        trimmed_end(s).len() > 0 ==> !is_white_space(trimmed_end(s).last()),
    decreases s.len(),
{
    if s.len() > 0 && is_white_space(s.last()) {
        let d = s.drop_last();
        lemma_trimmed_end(d);
        let n = trimmed_end(d).len() as int;
        assert(d.take(n) =~= s.take(n));
    } else {
        assert(s.take(s.len() as int) =~= s);
    }
}

/// A line feed behind a text that ends in no white space ends its last line, and adds an empty
/// line where the text is empty.
pub proof fn lemma_lines_closed(t: Seq<char>)
    requires
        t.len() > 0 ==> !is_white_space(t.last()),
    ensures
        split(t, '\n').map_values(|p: Seq<char>| chomp(p)) == if t.len() == 0 {
            seq![Seq::<char>::empty()]
        } else {
            lines_of(t)
        },
{
    lemma_split_last(t, '\n');
    let pieces = split(t, '\n');
    let chomped = pieces.map_values(|p: Seq<char>| chomp(p));
    let last = pieces.last();
    if t.len() == 0 {
        assert(chomped =~= seq![Seq::<char>::empty()]);
    } else {
        if last.len() == 0 {
            lemma_split_ends(t, '\n');
        } else {
            assert(last.last() == t.last());
        }
        let ended = pieces.drop_last().map_values(|p: Seq<char>| chomp(p));
        assert(chomp(last) == last);
        assert(chomped =~= ended.push(last));
    }
}

/// An empty last piece of a text that is not empty comes of a separator at its end.
pub proof fn lemma_split_ends(s: Seq<char>, sep: char)
    requires
        s.len() > 0,
        split(s, sep).last().len() == 0,
    ensures
        s.last() == sep,
{
    lemma_split_last(s.drop_last(), sep);
}

/// Where no carriage return stands before a line feed, the pieces that a line feed ends do not
/// end in a carriage return.
pub proof fn lemma_split_no_return(s: Seq<char>)
    requires
        forall|i: int| 0 <= i < s.len() - 1 && s[i] == '\r' ==> #[trigger] s[i + 1] != '\n',
    ensures
        forall|k: int|
            0 <= k < split(s, '\n').len() - 1 ==> chomp(#[trigger] split(s, '\n')[k]) == split(
                s,
                '\n',
            )[k],
    decreases s.len(),
{
    if s.len() > 0 {
        let d = s.drop_last();
        assert forall|i: int| 0 <= i < d.len() - 1 && d[i] == '\r' implies #[trigger] d[i + 1]
            != '\n' by {
            assert(s[i + 1] == d[i + 1]);
        }
        lemma_split_no_return(d);
        lemma_split_last(d, '\n');
        let init = split(d, '\n');
        let pieces = split(s, '\n');
        if s.last() == '\n' {
            let last = init.last();
            if last.len() > 0 && last.last() == '\r' {
                assert(d.last() == '\r');
                assert(s[d.len() - 1] == '\r');
                assert(s[d.len() - 1 + 1] == '\n');
            }
        }
        assert forall|k: int| 0 <= k < pieces.len() - 1 implies chomp(#[trigger] pieces[k])
            == pieces[k] by {
            assert(pieces[k] == init[k]);
        }
    }
}

/// Different digits are written differently.
pub proof fn lemma_digit(a: nat, b: nat)
    requires
        a < 10,
        b < 10,
        digit(a) == digit(b),
    ensures
        a == b,
{
}

/// Different numbers have different numerals.
pub proof fn lemma_numeral_injective(a: nat, b: nat)
    requires
        numeral(a) == numeral(b),
    ensures
        a == b,
    decreases a,
{
    lemma_numeral_long(a);
    lemma_numeral_long(b);
    lemma_digit(a % 10, b % 10);
    if a >= 10 && b >= 10 {
        assert(numeral(a).drop_last() =~= numeral(a / 10));
        assert(numeral(b).drop_last() =~= numeral(b / 10));
        lemma_numeral_injective(a / 10, b / 10);
    }
}

/// A numeral has two or more digits from ten on, and ends in the last digit of its number.
pub proof fn lemma_numeral_long(n: nat)
    ensures
        n < 10 ==> numeral(n).len() == 1,
        n >= 10 ==> numeral(n).len() >= 2,
        numeral(n).last() == digit(n % 10),
    decreases n,
{
    if n >= 10 {
        lemma_numeral_long(n / 10);
    }
}

/// Two digits for a number below a hundred.
pub proof fn lemma_two_digits(n: nat)
    requires
        n < 100,
    ensures
        two_digits(n) == seq![digit(n / 10), digit(n % 10)],
{
    reveal_with_fuel(numeral, 3);
    assert(two_digits(n) =~= seq![digit(n / 10), digit(n % 10)]);
}

/// A numeral does not start with a zero, but for that of zero.
pub proof fn lemma_numeral_first(n: nat)
    requires
        n > 0,
    ensures
        numeral(n).len() > 0,
        numeral(n)[0] != '0',
    decreases n,
{
    if n >= 10 {
        lemma_numeral_first(n / 10);
        assert(numeral(n)[0] == numeral(n / 10)[0]);
    }
}

/// Different numbers differ also where one digit is padded to two.
pub proof fn lemma_two_digits_injective(a: nat, b: nat)
    requires
        two_digits(a) == two_digits(b),
    ensures
        a == b,
{
    if a < 10 {
        assert(two_digits(a)[0] == '0');
        assert(two_digits(a).skip(1) =~= numeral(a));
    } else {
        lemma_numeral_first(a);
    }
    if b < 10 {
        assert(two_digits(b)[0] == '0');
        assert(two_digits(b).skip(1) =~= numeral(b));
    } else {
        lemma_numeral_first(b);
    }
    lemma_numeral_injective(a, b);
}

/// Splitting joined pieces gives the pieces back, where none holds the separator.
pub proof fn lemma_split_join(pieces: Seq<Seq<char>>, sep: char)
    requires
        pieces.len() > 0,
        forall|k: int| 0 <= k < pieces.len() ==> !(#[trigger] pieces[k]).contains(sep),
    ensures
        split(join(pieces, sep), sep) == pieces,
    decreases pieces.len(),
{
    let last = pieces.last();
    assert(!pieces[pieces.len() - 1].contains(sep));
    lemma_split_single(last, sep);
    if pieces.len() == 1 {
        assert(seq![last] =~= pieces);
    } else {
        let front = pieces.drop_last();
        assert forall|k: int| 0 <= k < front.len() implies !(#[trigger] front[k]).contains(
            sep,
        ) by {
            assert(front[k] == pieces[k]);
        }
        lemma_split_join(front, sep);
        lemma_split_across(join(front, sep), sep, last);
        assert(front + seq![last] =~= pieces);
    }
}

/// The texts of a list of strings are those of its strings, one for one.
pub proof fn law_texts_are_those_of_the_strings(list: Seq<String>)
    ensures
        texts(list).len() == list.len(),
        forall|i: int| 0 <= i < list.len() ==> #[trigger] texts(list)[i] == list[i]@,
{
}

/// A text holds another exactly if it is that text with something before it and something behind
/// it, either of which may be empty.
pub proof fn law_held_text_has_two_sides(hay: Seq<char>, needle: Seq<char>)
    ensures
        contains_text(hay, needle) <==> exists|before: Seq<char>, behind: Seq<char>|
            hay == #[trigger] (before + needle + behind),
{
    if contains_text(hay, needle) {
        let at = choose|at: int| occurs_at(hay, needle, at);
        let before = hay.take(at);
        let behind = hay.skip(at + needle.len());
        assert forall|i: int| 0 <= i < needle.len() implies hay[at + i] == needle[i] by {
            assert(hay.subrange(at, at + needle.len())[i] == needle[i]);
        }
        assert(hay =~= before + needle + behind);
    }
    if exists|before: Seq<char>, behind: Seq<char>| hay == #[trigger] (before + needle + behind) {
        let (before, behind) = choose|before: Seq<char>, behind: Seq<char>|
            hay == #[trigger] (before + needle + behind);
        let at = before.len() as int;
        assert(hay.subrange(at, at + needle.len()) =~= needle);
        assert(occurs_at(hay, needle, at));
    }
}

/// Splitting takes off what stands before the first separator, and goes on behind it; a text
/// without a separator is one piece.
pub proof fn law_split_goes_piece_by_piece(piece: Seq<char>, sep: char, rest: Seq<char>)
    requires
        !piece.contains(sep),
    ensures
        split(piece, sep) == seq![piece],
        split(piece.push(sep) + rest, sep) == seq![piece] + split(rest, sep),
{
    lemma_split_single(piece, sep);
    lemma_split_across(piece, sep, rest);
}

/// A line ends at a line feed, with or without a carriage return before it, and the lines behind it
/// follow. What stands behind the last line feed is a line if it is not empty.
pub proof fn law_lines_are_read_one_by_one(line: Seq<char>, rest: Seq<char>)
    requires
        !line.contains('\n'),
    ensures
        lines_of(line.push('\r').push('\n') + rest) == seq![line] + lines_of(rest),
        (line.len() == 0 || line.last() != '\r') ==> lines_of(line.push('\n') + rest) == seq![line]
            + lines_of(rest),
        line.len() > 0 ==> lines_of(line) == seq![line],
        line.len() == 0 ==> lines_of(line) == Seq::<Seq<char>>::empty(),
{
    let f = |p: Seq<char>| chomp(p);
    let returned = line.push('\r');
    assert forall|i: int| 0 <= i < returned.len() implies returned[i] != '\n' by {
        if i < line.len() {
            assert(line.contains(line[i]));
        }
    }
    lemma_split_single(line, '\n');
    lemma_split_single(returned, '\n');
    lemma_split_across(line, '\n', rest);
    lemma_split_across(returned, '\n', rest);
    lemma_split_last(rest, '\n');
    let tail = split(rest, '\n');
    assert(returned.drop_last() =~= line);
    assert((seq![line] + tail).drop_last().map_values(f) =~= seq![chomp(line)]
        + tail.drop_last().map_values(f));
    assert((seq![returned] + tail).drop_last().map_values(f) =~= seq![line]
        + tail.drop_last().map_values(f));
    assert(lines_of(returned.push('\n') + rest) =~= seq![line] + lines_of(rest));
    assert(lines_of(line.push('\n') + rest) =~= seq![chomp(line)] + lines_of(rest));
    assert(seq![line].drop_last().map_values(f) =~= Seq::<Seq<char>>::empty());
    if line.len() > 0 {
        assert(lines_of(line) =~= seq![line]);
    } else {
        assert(lines_of(line) =~= Seq::<Seq<char>>::empty());
    }
}

/// Trimming takes off exactly the white space behind the last other character.
pub proof fn law_trimming_takes_off_white_space(s: Seq<char>, white: Seq<char>)
    requires
        s.len() > 0 ==> !is_white_space(s.last()),
        forall|i: int| 0 <= i < white.len() ==> is_white_space(#[trigger] white[i]),
    ensures
        trimmed_end(s + white) == s,
    decreases white.len(),
{
    if white.len() == 0 {
        assert(s + white =~= s);
    } else {
        let front = white.drop_last();
        assert((s + white).drop_last() =~= s + front);
        assert(is_white_space(white[white.len() - 1]));
        assert forall|i: int| 0 <= i < front.len() implies is_white_space(#[trigger] front[i]) by {
            assert(front[i] == white[i]);
        }
        law_trimming_takes_off_white_space(s, front);
    }
}

/// Whether a text is made of decimal digits.
pub open spec fn all_digits(s: Seq<char>) -> bool {
    forall|i: int| 0 <= i < s.len() ==> '0' <= #[trigger] s[i] <= '9'
}

/// The number that a text of decimal digits stands for.
pub open spec fn value_of(s: Seq<char>) -> int
    decreases s.len(),
{
    if s.len() == 0 {
        0
    } else {
        value_of(s.drop_last()) * 10 + (s.last() as int - '0' as int)
    }
}

/// A numeral is made of digits, stands for its number, and has no zero in front that it can do
/// without.
pub proof fn law_numeral_stands_for_its_number(n: nat)
    ensures
        all_digits(numeral(n)),
        value_of(numeral(n)) == n,
        numeral(n).len() > 0,
        numeral(n).len() > 1 ==> numeral(n)[0] != '0',
    decreases n,
{
    if n < 10 {
        let s = numeral(n);
        assert(s.drop_last() =~= Seq::<char>::empty());
        assert(value_of(Seq::<char>::empty()) == 0);
        assert(s.last() == digit(n));
    } else {
        law_numeral_stands_for_its_number(n / 10);
        let s = numeral(n);
        let init = numeral(n / 10);
        assert(s.drop_last() =~= init);
        assert(s.last() == digit(n % 10));
        lemma_numeral_first(n);
        assert forall|i: int| 0 <= i < s.len() implies '0' <= #[trigger] s[i] <= '9' by {
            if i < init.len() {
                assert(s[i] == init[i]);
            }
        }
    }
}

/// A numeral of at least two digits stands for its number, and has a zero in front only to come to
/// two digits.
pub proof fn law_padded_numeral_stands_for_its_number(n: nat)
    ensures
        all_digits(two_digits(n)),
        value_of(two_digits(n)) == n,
        two_digits(n).len() >= 2,
        two_digits(n).len() > 2 ==> two_digits(n)[0] != '0',
        n < 100 ==> two_digits(n).len() == 2,
{
    law_numeral_stands_for_its_number(n);
    lemma_numeral_long(n);
    let s = two_digits(n);
    if n < 100 {
        lemma_two_digits(n);
    }
    if n < 10 {
        assert(s.drop_last() =~= seq!['0']);
        assert(seq!['0'].drop_last() =~= Seq::<char>::empty());
        reveal_with_fuel(value_of, 3);
        assert(s.last() == digit(n));
        assert(value_of(seq!['0']) == 0);
    }
}

/// Joining two lists puts one separator between what each comes to alone; one piece stays as it is,
/// and no piece comes to nothing.
pub proof fn law_join_puts_one_between(a: Seq<Seq<char>>, b: Seq<Seq<char>>, sep: char)
    requires
        a.len() > 0,
        b.len() > 0,
    ensures
        join(a + b, sep) == join(a, sep).push(sep) + join(b, sep),
        a.len() == 1 ==> join(a, sep) == a[0],
        join(Seq::empty(), sep) == Seq::<char>::empty(),
    decreases b.len(),
{
    let front = b.drop_last();
    assert((a + b).drop_last() =~= a + front);
    assert((a + b).last() == b.last());
    if front.len() == 0 {
        assert(a + front =~= a);
    } else {
        law_join_puts_one_between(a, front, sep);
        assert(join(a + b, sep) =~= join(a, sep).push(sep) + join(b, sep));
    }
}

} // verus!
