//! The status texts of a result view.

use vstd::prelude::*;
use vstd::string::StringExecFns;
use crate::duplicate::Duplicate;
use crate::pagination::PageView;
use crate::query_line::push_char;

verus! {

/// The character of a decimal digit.
pub open spec fn digit(d: int) -> char {
    if d == 0 {
        '0'
    } else if d == 1 {
        '1'
    } else if d == 2 {
        '2'
    } else if d == 3 {
        '3'
    } else if d == 4 {
        '4'
    } else if d == 5 {
        '5'
    } else if d == 6 {
        '6'
    } else if d == 7 {
        '7'
    } else if d == 8 {
        '8'
    } else {
        '9'
    }
}

/// A number in decimal: its digits, the highest first, without leading zeros.
pub open spec fn decimal(n: nat) -> Seq<char>
    decreases n,
{
    if n < 10 {
        seq![digit(n as int)]
    } else {
        decimal(n / 10).push(digit((n % 10) as int))
    }
}

/// The character of a decimal digit.
fn digit_char(d: usize) -> (c: char)
    requires
        d < 10,
    ensures
        c == digit(d as int),
{
    if d == 0 {
        '0'
    } else if d == 1 {
        '1'
    } else if d == 2 {
        '2'
    } else if d == 3 {
        '3'
    } else if d == 4 {
        '4'
    } else if d == 5 {
        '5'
    } else if d == 6 {
        '6'
    } else if d == 7 {
        '7'
    } else if d == 8 {
        '8'
    } else {
        '9'
    }
}

/// Appends a number in decimal.
pub fn write_decimal(out: &mut String, n: usize)
    ensures
        final(out)@ == old(out)@ + decimal(n as nat),
    decreases n,
{
    if n < 10 {
        push_char(out, digit_char(n));
        assert(out@ =~= old(out)@ + decimal(n as nat));
    } else {
        write_decimal(out, n / 10);
        push_char(out, digit_char(n % 10));
        assert(out@ =~= old(out)@ + decimal(n as nat));
    }
}

/// The status text of a result list under the given label: the number of
/// items where they fit on one page, and else the range of items on show,
/// their number, and the page.
pub open spec fn status_text(
    label: Seq<char>,
    total: nat,
    first: nat,
    last: nat,
    page: nat,
    pages: nat,
) -> Seq<char> {
    if pages <= 1 {
        label + ": "@ + decimal(total)
    } else {
        label + ": "@ + decimal(first) + "-"@ + decimal(last) + " of "@ + decimal(total)
            + " (Page "@ + decimal(page + 1) + "/"@ + decimal(pages) + ")"@
    }
}

/// The status text of a result view under the given label, such as
/// "Files: 1-1000 of 4213 (Page 1/5)".
pub fn status_line<T: Duplicate>(label: &str, view: &PageView<T>) -> (text: String)
    requires
        view.wf(),
    ensures
        text@ == status_text(
            label@,
            view.items().len(),
            (crate::pagination::page_start(view.page(), view.size()) + 1) as nat,
            crate::pagination::page_end(view.page(), view.size(), view.items().len() as int) as nat,
            view.page() as nat,
            view.pages() as nat,
        ),
{
    let mut text = String::from_str(label);
    text.append(": ");
    if view.total_pages() <= 1 {
        write_decimal(&mut text, view.total_items());
    } else {
        let (start, end) = view.window();
        write_decimal(&mut text, start + 1);
        text.append("-");
        write_decimal(&mut text, end);
        text.append(" of ");
        write_decimal(&mut text, view.total_items());
        text.append(" (Page ");
        write_decimal(&mut text, view.current_page() + 1);
        text.append("/");
        write_decimal(&mut text, view.total_pages());
        text.append(")");
    }
    text
}

/// The paging hint: empty where the items fit on one page, else the page
/// and the keys that turn pages.
pub open spec fn pagination_text(page: nat, pages: nat) -> Seq<char> {
    if pages <= 1 {
        Seq::empty()
    } else {
        "Page "@ + decimal(page + 1) + "/"@ + decimal(pages)
            + " | n/]: Next | p/[: Prev | Ctrl+g: First | G: Last"@
    }
}

/// The paging hint of a result view.
pub fn pagination_line<T: Duplicate>(view: &PageView<T>) -> (text: String)
    requires
        view.wf(),
    ensures
        text@ == pagination_text(view.page() as nat, view.pages() as nat),
{
    let mut text = String::new();
    if view.total_pages() > 1 {
        text.append("Page ");
        write_decimal(&mut text, view.current_page() + 1);
        text.append("/");
        write_decimal(&mut text, view.total_pages());
        text.append(" | n/]: Next | p/[: Prev | Ctrl+g: First | G: Last");
    }
    text
}

} // verus!
