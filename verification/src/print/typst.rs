//! A store as a Typst table: one numbered row for each item.

use crate::item::Item;
use crate::text::{chars_of, decimal, push_char, push_decimal, trim_bounds, trimmed};
use vstd::prelude::*;
use vstd::string::StringExecFns;

verus! {

/// `text` with a backslash before every line break, which is how a Typst
/// cell keeps its lines apart.
pub open spec fn escaped(text: Seq<char>) -> Seq<char>
    decreases text.len(),
{
    if text.len() == 0 {
        Seq::empty()
    } else if text.last() == '\n' {
        escaped(text.drop_last()).push('\\').push('\n')
    } else {
        escaped(text.drop_last()).push(text.last())
    }
}

/// What a cell shows of `text`: the text without the white space around it,
/// escaped.
pub open spec fn cell(text: Seq<char>) -> Seq<char> {
    escaped(trimmed(text))
}

/// The row of `item`, which is the `number`-th of the table.
pub open spec fn typst_row(number: nat, item: Item) -> Seq<char> {
    "    ["@ + decimal(number) + "], ["@ + cell(item.question@) + "], ["@ + cell(item.answer@)
        + "],\n"@
}

/// The rows of `items`, numbered from one.
pub open spec fn typst_rows(items: Seq<Item>) -> Seq<char>
    decreases items.len(),
{
    if items.len() == 0 {
        Seq::empty()
    } else {
        typst_rows(items.drop_last()) + typst_row(items.len(), items.last())
    }
}

/// What the table begins with: its columns and its header, and an empty line.
pub open spec fn typst_head() -> Seq<char> {
    "#table(\n    columns: (1cm, auto, auto),\n    table.header([], [*Q*], [*A*]),\n\n"@
}

/// The whole table: its head, its rows, its end.
pub open spec fn typst_table(items: Seq<Item>) -> Seq<char> {
    typst_head() + typst_rows(items) + ")\n"@
}

/// Puts the cell of `text` at the end of `out`.
fn push_cell(out: &mut String, text: &str)
    ensures
        final(out)@ == old(out)@ + cell(text@),
{
    let chars = chars_of(text);
    let (a, b) = trim_bounds(&chars);
    let ghost inner = chars@.subrange(a as int, b as int);
    let mut k: usize = a;
    while k < b
        invariant
            a <= k <= b <= chars.len(),
            inner == chars@.subrange(a as int, b as int),
            out@ == old(out)@ + escaped(inner.take(k - a)),
        decreases b - k,
    {
        let c = chars[k];
        proof {
            assert(inner.take(k - a + 1).drop_last() == inner.take(k - a));
        }
        if c == '\n' {
            push_char(out, '\\');
            push_char(out, '\n');
        } else {
            push_char(out, c);
        }
        k += 1;
    }
    proof {
        assert(inner.take(b - a) == inner);
    }
}

/// Writes `items` as a Typst table.
pub fn typst(items: &Vec<Item>) -> (output: String)
    ensures
        output@ == typst_table(items@),
{
    let mut buf = String::new();
    buf.append("#table(\n    columns: (1cm, auto, auto),\n    table.header([], [*Q*], [*A*]),\n\n");
    let mut i: usize = 0;
    while i < items.len()
        invariant
            i <= items.len(),
            buf@ == typst_head() + typst_rows(items@.take(i as int)),
        decreases items.len() - i,
    {
        let item = &items[i];
        buf.append("    [");
        push_decimal(&mut buf, i + 1);
        buf.append("], [");
        push_cell(&mut buf, item.question.as_str());
        buf.append("], [");
        push_cell(&mut buf, item.answer.as_str());
        buf.append("],\n");
        proof {
            assert(items@.take(i as int + 1).drop_last() == items@.take(i as int));
        }
        i += 1;
    }
    buf.append(")\n");
    proof {
        assert(items@.take(items.len() as int) == items@);
    }
    buf
}

} // verus!
