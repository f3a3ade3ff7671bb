//! The report: one line for each row, under a header.

use vstd::prelude::*;
use vstd::string::{StrSliceExecFns, StringExecFns};
use crate::item::{rows, Row, ScanItem};
use crate::size::{human_size, human_size_text};
use crate::text::{padded, push_dashes, push_spaces, repeated, texts};

verus! {

/// How a row's classification is shown.
pub open spec fn kind_label(is_dir: bool) -> Seq<char> {
    if is_dir {
        "DIR"@
    } else {
        "FILE"@
    }
}

/// The width of the size column: that of the longest size shown, and at
/// least that of the column's heading.
pub open spec fn size_width(items: Seq<Row>) -> nat
    decreases items.len(),
{
    if items.len() == 0 {
        4
    } else {
        let before = size_width(items.drop_last());
        let here = human_size_text(items.last().size).len();
        if here > before {
            here
        } else {
            before
        }
    }
}

/// The header: the three headings, the first two padded to their columns.
pub open spec fn header_line(width: nat) -> Seq<char> {
    padded("Size"@, width) + "  "@ + padded("Type"@, 4) + "  "@ + "Path"@
}

/// The line of hyphens under the header: as wide as the size column, the
/// type column and the gaps beside them, and 40 more for the paths.
pub open spec fn rule_line(width: nat) -> Seq<char> {
    repeated('-', width + 2 + 4 + 2 + 40)
}

/// The line of one row: size, classification and path, the first two
/// padded to their columns.
pub open spec fn row_line(row: Row, width: nat) -> Seq<char> {
    padded(human_size_text(row.size), width) + "  "@ + padded(kind_label(row.is_dir), 4) + "  "@
        + row.path
}

/// The lines of a report. Without rows it is one line that says so; else
/// the header, the rule, and the rows in their order.
pub open spec fn table_lines(items: Seq<Row>) -> Seq<Seq<char>> {
    if items.len() == 0 {
        seq!["No items found."@]
    } else {
        let width = size_width(items);
        seq![header_line(width), rule_line(width)] + Seq::new(
            items.len(),
            |i: int| row_line(items[i], width),
        )
    }
}

fn push_padded(out: &mut String, text: &str, width: usize)
    ensures
        final(out)@ == old(out)@ + padded(text@, width as nat),
{
    let len = text.unicode_len();
    out.append(text);
    if len < width {
        push_spaces(out, width - len);
    }
    assert(final(out)@ =~= old(out)@ + padded(text@, width as nat));
}

/// Lays the rows out as the lines of a report.
pub fn render_table(items: &Vec<ScanItem>) -> (lines: Vec<String>)
    ensures
        texts(lines@) == table_lines(rows(items@)),
{
    let mut lines: Vec<String> = Vec::new();
    if items.len() == 0 {
        lines.push("No items found.".to_owned());
        assert(texts(lines@) =~= table_lines(rows(items@)));
        return lines;
    }
    let ghost shown = rows(items@);
    let mut sizes: Vec<String> = Vec::new();
    let mut width: usize = 4;
    let mut done: usize = 0;
    while done < items.len()
        invariant
            done <= items.len(),
            shown == rows(items@),
            sizes@.len() == done,
            forall|k: int| 0 <= k < done ==> (#[trigger] sizes@[k])@ == human_size_text(shown[k].size),
            width as nat == size_width(shown.take(done as int)),
        decreases items.len() - done,
    {
        let ghost after = shown.take(done + 1);
        assert(after.drop_last() =~= shown.take(done as int));
        assert(after.last() == shown[done as int]);
        let size = human_size(items[done].size());
        let len = size.as_str().unicode_len();
        if len > width {
            width = len;
        }
        sizes.push(size);
        done = done + 1;
    }
    assert(shown.take(done as int) =~= shown);

    let mut header = String::new();
    push_padded(&mut header, "Size", width);
    header.append("  ");
    push_padded(&mut header, "Type", 4);
    header.append("  ");
    header.append("Path");
    assert(header@ =~= header_line(width as nat));
    lines.push(header);

    let mut rule = String::new();
    push_dashes(&mut rule, width);
    push_dashes(&mut rule, 48);
    assert(rule@ =~= rule_line(width as nat));
    lines.push(rule);

    let mut at: usize = 0;
    while at < items.len()
        invariant
            at <= items.len(),
            shown == rows(items@),
            sizes@.len() == items.len(),
            forall|k: int|
                0 <= k < sizes@.len() ==> (#[trigger] sizes@[k])@ == human_size_text(
                    shown[k].size,
                ),
            width as nat == size_width(shown),
            lines@.len() == 2 + at,
            lines@[0]@ == header_line(width as nat),
            lines@[1]@ == rule_line(width as nat),
            forall|k: int|
                0 <= k < at ==> (#[trigger] lines@[2 + k])@ == row_line(shown[k], width as nat),
        decreases items.len() - at,
    {
        let item = &items[at];
        let mut line = String::new();
        push_padded(&mut line, sizes[at].as_str(), width);
        line.append("  ");
        let kind = if item.is_dir() {
            "DIR"
        } else {
            "FILE"
        };
        push_padded(&mut line, kind, 4);
        line.append("  ");
        line.append(item.path());
        assert(line@ =~= row_line(shown[at as int], width as nat));
        lines.push(line);
        at = at + 1;
    }
    assert forall|k: int| 0 <= k < lines@.len() implies #[trigger] texts(lines@)[k]
        == table_lines(shown)[k] by {
        if k >= 2 {
            assert(lines@[2 + (k - 2)]@ == row_line(shown[k - 2], width as nat));
        }
    }
    assert(texts(lines@) =~= table_lines(shown));
    lines
}

} // verus!
