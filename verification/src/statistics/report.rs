//! The dependency matrix as delimited text.

use crate::statistics::events_registrants_dependency::counts;
use crate::statistics::events_registrants_dependency::matrix;
use crate::text::append_decimal;
use crate::text::decimal;
use crate::text::digit;
use crate::text::digit_text;
use vstd::prelude::*;
use vstd::string::*;

verus! {

/// The character between the cells of a line.
pub open spec fn field_delimiter() -> char {
    ';'
}

/// The character between the lines of a report.
pub open spec fn line_delimiter() -> char {
    '\n'
}

/// The parts in order, with the delimiter between each two: none before
/// the first, none after the last.
pub open spec fn joined(parts: Seq<Seq<char>>, delimiter: char) -> Seq<char>
    decreases parts.len(),
{
    if parts.len() == 0 {
        Seq::empty()
    } else if parts.len() == 1 {
        parts[0]
    } else {
        joined(parts.drop_last(), delimiter).push(delimiter) + parts.last()
    }
}

/// Joining one more part appends the delimiter and the part.
pub proof fn lemma_joined_push(parts: Seq<Seq<char>>, part: Seq<char>, delimiter: char)
    ensures
        joined(parts.push(part), delimiter) == if parts.len() == 0 {
            part
        } else {
            joined(parts, delimiter).push(delimiter) + part
        },
{
    assert(parts.push(part).drop_last() =~= parts);
}

/// The share `overlap / denominator` in hundredths of a percent, rounded
/// to the nearest whole number, a tie going to the even one. A share of
/// nothing is no share: with a denominator of zero the result is zero.
pub open spec fn percentage_hundredths(overlap: nat, denominator: nat) -> nat {
    if denominator == 0 {
        0
    } else {
        let scaled = overlap * 10000;
        let quotient = scaled / denominator;
        let rest = scaled % denominator;
        if 2 * rest > denominator || (2 * rest == denominator && quotient % 2 == 1) {
            quotient + 1
        } else {
            quotient
        }
    }
}

/// The share as a percentage with two decimals, such as `33.33`.
pub open spec fn percentage_text(overlap: nat, denominator: nat) -> Seq<char> {
    let hundredths = percentage_hundredths(overlap, denominator);
    decimal(hundredths / 100) + seq!['.', digit(hundredths / 10 % 10), digit(hundredths % 10)]
}

/// The text of one cell of the matrix, such as `1/3 (33.33%)`.
pub open spec fn cell_text(dependency: (nat, nat)) -> Seq<char> {
    decimal(dependency.0) + seq!['/'] + decimal(dependency.1) + seq![' ', '('] + percentage_text(
        dependency.0,
        dependency.1,
    ) + seq!['%', ')']
}

/// The first line of a report: an empty cell, then the labels.
pub open spec fn heading(labels: Seq<Seq<char>>) -> Seq<char> {
    joined(seq![Seq::<char>::empty()] + labels, field_delimiter())
}

/// The line of one group: its label, then its cells.
pub open spec fn line(label: Seq<char>, dependencies: Seq<(nat, nat)>) -> Seq<char> {
    joined(
        seq![label] + dependencies.map_values(|dependency: (nat, nat)| cell_text(dependency)),
        field_delimiter(),
    )
}

/// The lines of a report: the heading, then one line for each label.
pub open spec fn lines(labels: Seq<Seq<char>>, dependencies: Seq<Seq<(nat, nat)>>) -> Seq<
    Seq<char>,
> {
    seq![heading(labels)] + Seq::new(labels.len(), |i: int| line(labels[i], dependencies[i]))
}

/// The report of a dependency matrix.
pub open spec fn report(labels: Seq<Seq<char>>, dependencies: Seq<Seq<(nat, nat)>>) -> Seq<char> {
    joined(lines(labels, dependencies), line_delimiter())
}

/// The share `overlap / denominator` in hundredths of a percent.
pub fn compute_percentage(overlap: usize, denominator: usize) -> (r: u128)
    ensures
        r == percentage_hundredths(overlap as nat, denominator as nat),
{
    if denominator == 0 {
        return 0;
    }
    let scaled: u128 = (overlap as u128) * 10000;
    let quotient: u128 = scaled / (denominator as u128);
    let rest: u128 = scaled % (denominator as u128);
    if 2 * rest > denominator as u128 || (2 * rest == denominator as u128 && quotient % 2 == 1) {
        quotient + 1
    } else {
        quotient
    }
}

/// The text of one cell of the matrix.
pub fn format_dependency(dependency: (usize, usize)) -> (r: String)
    ensures
        r@ == cell_text(counts(dependency)),
{
    proof {
        reveal_strlit("/");
        reveal_strlit(" (");
        reveal_strlit(".");
        reveal_strlit("%)");
    }
    let hundredths = compute_percentage(dependency.0, dependency.1);
    let mut text = String::new();
    append_decimal(&mut text, dependency.0 as u128);
    text.append("/");
    append_decimal(&mut text, dependency.1 as u128);
    text.append(" (");
    append_decimal(&mut text, hundredths / 100);
    text.append(".");
    text.append(digit_text((hundredths / 10 % 10) as u8));
    text.append(digit_text((hundredths % 10) as u8));
    text.append("%)");
    text
}

fn field_end() -> (r: &'static str)
    ensures
        r@ == seq![field_delimiter()],
{
    proof {
        reveal_strlit(";");
    }
    ";"
}

fn line_end() -> (r: &'static str)
    ensures
        r@ == seq![line_delimiter()],
{
    proof {
        reveal_strlit("\n");
    }
    "\n"
}

fn format_heading(labels: &Vec<String>) -> (r: String)
    ensures
        r@ == heading(labels.deep_view()),
{
    let ghost all = labels.deep_view();
    let ghost start = seq![Seq::<char>::empty()];
    let mut text = String::new();
    let mut k: usize = 0;
    while k < labels.len()
        invariant
            k <= labels.len(),
            all == labels.deep_view(),
            start == seq![Seq::<char>::empty()],
            text@ == joined(start + all.take(k as int), field_delimiter()),
        decreases labels.len() - k,
    {
        proof {
            assert(start + all.take(k + 1) =~= (start + all.take(k as int)).push(all[k as int]));
            lemma_joined_push(start + all.take(k as int), all[k as int], field_delimiter());
        }
        text.append(field_end());
        text.append(labels[k].as_str());
        k = k + 1;
    }
    assert(all.take(k as int) =~= all);
    text
}

fn format_line(label: &String, dependencies: &Vec<(usize, usize)>) -> (r: String)
    ensures
        r@ == line(label@, Seq::new(dependencies@.len(), |j: int| counts(dependencies@[j]))),
{
    let ghost cells = Seq::new(dependencies@.len(), |j: int| counts(dependencies@[j]));
    let ghost texts = cells.map_values(|dependency: (nat, nat)| cell_text(dependency));
    let ghost start = seq![label@];
    let mut text = label.clone();
    let mut k: usize = 0;
    while k < dependencies.len()
        invariant
            k <= dependencies.len(),
            cells == Seq::new(dependencies@.len(), |j: int| counts(dependencies@[j])),
            texts == cells.map_values(|dependency: (nat, nat)| cell_text(dependency)),
            start == seq![label@],
            text@ == joined(start + texts.take(k as int), field_delimiter()),
        decreases dependencies.len() - k,
    {
        proof {
            assert(start + texts.take(k + 1) =~= (start + texts.take(k as int)).push(
                texts[k as int],
            ));
            lemma_joined_push(start + texts.take(k as int), texts[k as int], field_delimiter());
        }
        let cell = format_dependency(dependencies[k]);
        text.append(field_end());
        text.append(cell.as_str());
        k = k + 1;
    }
    assert(texts.take(k as int) =~= texts);
    text
}

/// Renders the ordered group labels and their dependency matrix: a heading
/// with the labels, then one line for each group, whose cells tell how far
/// each group depends on it.
pub fn render(labels: &Vec<String>, dependencies: &Vec<Vec<(usize, usize)>>) -> (r: String)
    requires
        dependencies.len() == labels.len(),
    ensures
        r@ == report(labels.deep_view(), matrix(dependencies@)),
{
    let ghost names = labels.deep_view();
    let ghost all = lines(names, matrix(dependencies@));
    let mut text = format_heading(labels);
    let mut i: usize = 0;
    while i < labels.len()
        invariant
            i <= labels.len(),
            dependencies.len() == labels.len(),
            names == labels.deep_view(),
            all == lines(names, matrix(dependencies@)),
            text@ == joined(all.take(i + 1), line_delimiter()),
        decreases labels.len() - i,
    {
        proof {
            assert(all.take(i + 2) =~= all.take(i + 1).push(all[i + 1]));
            lemma_joined_push(all.take(i + 1), all[i + 1], line_delimiter());
            assert(matrix(dependencies@)[i as int] =~= Seq::new(
                dependencies@[i as int]@.len(),
                |j: int| counts(dependencies@[i as int]@[j]),
            ));
        }
        let row = format_line(&labels[i], &dependencies[i]);
        text.append(line_end());
        text.append(row.as_str());
        i = i + 1;
    }
    assert(all.take(i + 1) =~= all);
    text
}

} // verus!
