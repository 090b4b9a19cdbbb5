//! Rendering query results as text: decimal numbers, joined line lists,
//! and `name: count` ranking lines.

use vstd::prelude::*;

verus! {

use crate::order::spec_names_view;
use crate::rank::spec_entries_view;
use std::string::String;
use std::vec::Vec;
use vstd::string::StringExecFns;

/// The digit character of a value below ten.
pub open spec fn spec_digit_char(d: int) -> char {
    if d == 0 {
        '0'
    } else if d == 1 {
        '1'
    } else if d == 2 {
        '2'
    } else if d == 3 {
        '3'
    } else if d == 4 {
        '4'
    } else if d == 5 {
        '5'
    } else if d == 6 {
        '6'
    } else if d == 7 {
        '7'
    } else if d == 8 {
        '8'
    } else {
        '9'
    }
}

/// The decimal numeral of a number, most significant digit first, with no
/// leading zeros (zero itself is "0").
pub open spec fn spec_decimal(n: nat) -> Seq<char>
    decreases n,
{
    if n < 10 {
        seq![spec_digit_char(n as int)]
    } else {
        spec_decimal(n / 10) + seq![spec_digit_char((n % 10) as int)]
    }
}

/// Appends one digit character.
fn push_digit(s: &mut String, d: usize)
    requires
        d < 10,
    ensures
        final(s)@ == old(s)@ + seq![spec_digit_char(d as int)],
{
    let digit: &'static str = match d {
        0 => "0",
        1 => "1",
        2 => "2",
        3 => "3",
        4 => "4",
        5 => "5",
        6 => "6",
        7 => "7",
        8 => "8",
        _ => "9",
    };
    proof {
        reveal_strlit("0");
        reveal_strlit("1");
        reveal_strlit("2");
        reveal_strlit("3");
        reveal_strlit("4");
        reveal_strlit("5");
        reveal_strlit("6");
        reveal_strlit("7");
        reveal_strlit("8");
        reveal_strlit("9");
        assert(digit@ =~= seq![spec_digit_char(d as int)]);
    }
    s.append(digit);
}

/// The decimal numeral of a number, as a string.
pub fn decimal_string(n: usize) -> (r: String)
    ensures
        r@ == spec_decimal(n as nat),
    decreases n,
{
    if n < 10 {
        let mut s = String::new();
        push_digit(&mut s, n);
        proof {
            assert(s@ =~= spec_decimal(n as nat));
        }
        s
    } else {
        let mut s = decimal_string(n / 10);
        push_digit(&mut s, n % 10);
        s
    }
}

/// Lines joined with a newline between each pair, and none at the end.
pub open spec fn spec_join_lines(s: Seq<Seq<char>>) -> Seq<char>
    decreases s.len(),
{
    if s.len() == 0 {
        Seq::empty()
    } else if s.len() == 1 {
        s[0]
    } else {
        spec_join_lines(s.drop_last()) + seq!['\n'] + s.last()
    }
}

/// Joins a list of lines with newlines.
pub fn join_lines(items: &Vec<String>) -> (r: String)
    ensures
        r@ == spec_join_lines(spec_names_view(items@)),
{
    let ghost sv: Seq<Seq<char>> = spec_names_view(items@);
    let n: usize = items.len();
    let mut out = String::new();
    let mut i: usize = 0;
    proof {
        reveal_strlit("\n");
        assert(sv.take(0) =~= Seq::<Seq<char>>::empty());
    }
    while i < n
        invariant
            0 <= i <= n,
            n == items@.len(),
            sv == spec_names_view(items@),
            out@ == spec_join_lines(sv.take(i as int)),
        decreases n - i,
    {
        proof {
            reveal_strlit("\n");
            assert(sv.take(i + 1).drop_last() =~= sv.take(i as int));
            assert(sv.take(i + 1).last() == sv[i as int]);
        }
        if i > 0 {
            out.append("\n");
            proof {
                assert("\n"@ =~= seq!['\n']);
            }
        }
        out.append(items[i].as_str());
        proof {
            if i == 0 {
                assert(sv.take(1) =~= seq![sv[0]]);
                assert(out@ =~= sv[0]);
            } else {
                assert(out@ =~= spec_join_lines(sv.take(i as int)) + seq!['\n'] + sv[i as int]);
            }
        }
        i = i + 1;
    }
    proof {
        assert(sv.take(n as int) =~= sv);
    }
    out
}

/// The `name: count` line of one ranking entry.
pub open spec fn spec_entry_line(e: (Seq<char>, usize)) -> Seq<char> {
    e.0 + ": "@ + spec_decimal(e.1 as nat)
}

/// The lines of a ranking, one entry each.
pub open spec fn spec_entry_lines(s: Seq<(Seq<char>, usize)>) -> Seq<Seq<char>> {
    s.map_values(|e: (Seq<char>, usize)| spec_entry_line(e))
}

/// Renders a ranking, one `name: count` line per entry.
pub fn render_entries(entries: &Vec<(String, usize)>) -> (r: String)
    ensures
        r@ == spec_join_lines(spec_entry_lines(spec_entries_view(entries@))),
{
    let n: usize = entries.len();
    let mut lines: Vec<String> = Vec::new();
    let mut i: usize = 0;
    while i < n
        invariant
            0 <= i <= n,
            n == entries@.len(),
            lines@.len() == i,
            forall|j: int|
                0 <= j < i ==> (#[trigger] lines@[j])@ == spec_entry_line(
                    spec_entries_view(entries@)[j],
                ),
        decreases n - i,
    {
        let mut line = entries[i].0.clone();
        line.append(": ");
        let count = decimal_string(entries[i].1);
        line.append(count.as_str());
        proof {
            assert(spec_entries_view(entries@)[i as int] == (
                entries@[i as int].0@,
                entries@[i as int].1,
            ));
            assert(line@ == spec_entry_line(spec_entries_view(entries@)[i as int]));
        }
        lines.push(line);
        i = i + 1;
    }
    let r = join_lines(&lines);
    proof {
        assert(spec_names_view(lines@) =~= spec_entry_lines(spec_entries_view(entries@)));
    }
    r
}

/// The given items, or their number: the text a listing command prints.
/// With `count` set the result is the decimal count of the items; without
/// it, the items joined by newlines.
pub fn count_or_list(items: Vec<String>, count: bool) -> (r: String)
    ensures
        count ==> r@ == spec_decimal(items@.len() as nat),
        !count ==> r@ == spec_join_lines(spec_names_view(items@)),
{
    if count {
        decimal_string(items.len())
    } else {
        join_lines(&items)
    }
}

} // verus!
