//! HTML rendering of a listing: a fixed header, one table row per entry in
//! listing order, a fixed footer.

use vstd::prelude::*;

use crate::entry::{all_wf, entry_wf, models, EntryModel, ListEntry};
use crate::escape::{escape_html, escape_spec};
use crate::sizefmt::{human_size, human_size_string};
use crate::time::{format_rfc2822, rfc2822_of};

verus! {

/// The fixed document prefix: head with the stylesheet link, table header.
pub open spec fn html_prefix() -> Seq<char> {
    "<html>"@ + "<head>"@
        + "<link rel=\"stylesheet\" href=\"https://cdn.jsdelivr.net/npm/@picocss/pico@1/css/pico.min.css\" />"@
        + "</head>"@ + "<body>"@ + "<table style=\"width: 100vw\">"@
        + "<thead><tr><th style=\"width: 60%;\">Name</th><th style=\"min-width: fit-content;\">Size</th><th style=\"min-width: fit-content;\">Modified</th></tr></thead>"@
        + "<tbody>"@
}

/// The fixed document suffix.
pub open spec fn html_suffix() -> Seq<char> {
    "</tbody>"@ + "</table>"@ + "</body></html>"@
}

/// The size cell: the human-readable byte count for a file, empty for a
/// directory or the parent row.
pub open spec fn size_cell(e: EntryModel) -> Seq<char> {
    match e.size {
        Option::Some(n) => human_size(n),
        Option::None => Seq::empty(),
    }
}

/// One table row: the name as a hyperlink whose target carries a trailing
/// separator for directories, then the size cell, then the modification
/// date; the name is HTML-escaped in both places.
pub open spec fn row_html(e: EntryModel) -> Seq<char> {
    "<tr>"@ + "<td>"@ + "<a href=\""@ + escape_spec(e.name) + (if e.directory {
        "/"@
    } else {
        Seq::<char>::empty()
    }) + "\">"@ + escape_spec(e.name) + "</a>"@ + "</td>"@ + "<td>"@ + size_cell(e) + "</td>"@
        + "<td>"@ + rfc2822_of(e.modified) + "</td>"@ + "</tr>"@
}

/// The rows of a listing, in listing order.
pub open spec fn rows_html(l: Seq<EntryModel>) -> Seq<char>
    decreases l.len(),
{
    if l.len() == 0 {
        Seq::empty()
    } else {
        rows_html(l.drop_last()) + row_html(l.last())
    }
}

/// The complete document for a listing.
pub open spec fn render_spec(l: Seq<EntryModel>) -> Seq<char> {
    html_prefix() + rows_html(l) + html_suffix()
}

fn render_row(e: &ListEntry) -> (r: String)
    requires
        entry_wf(e@),
    ensures
        r@ == row_html(e@),
{
    let mut row = String::new();
    row.append("<tr>");
    row.append("<td>");
    row.append("<a href=\"");
    let esc = escape_html(e.name.as_str());
    row.append(esc.as_str());
    if e.directory {
        row.append("/");
    }
    row.append("\">");
    row.append(esc.as_str());
    row.append("</a>");
    row.append("</td>");
    row.append("<td>");
    if let Option::Some(n) = e.size {
        let cell = human_size_string(n);
        row.append(cell.as_str());
    }
    row.append("</td>");
    row.append("<td>");
    let modified = format_rfc2822(e.modified);
    row.append(modified.as_str());
    row.append("</td>");
    row.append("</tr>");
    proof {
        assert(row@ =~= row_html(e@));
    }
    row
}

/// Renders the HTML page for the rows of `entries`, in their given order.
pub fn render_html(entries: &Vec<ListEntry>) -> (r: String)
    requires
        all_wf(models(entries@)),
    ensures
        r@ == render_spec(models(entries@)),
{
    let ghost l = models(entries@);
    let mut html = String::new();
    html.append("<html>");
    html.append("<head>");
    html.append(
        "<link rel=\"stylesheet\" href=\"https://cdn.jsdelivr.net/npm/@picocss/pico@1/css/pico.min.css\" />",
    );
    html.append("</head>");
    html.append("<body>");
    html.append("<table style=\"width: 100vw\">");
    html.append(
        "<thead><tr><th style=\"width: 60%;\">Name</th><th style=\"min-width: fit-content;\">Size</th><th style=\"min-width: fit-content;\">Modified</th></tr></thead>",
    );
    html.append("<tbody>");
    proof {
        assert(html@ =~= html_prefix() + rows_html(l.take(0)));
    }
    let mut i: usize = 0;
    while i < entries.len()
        invariant
            l == models(entries@),
            all_wf(l),
            i <= entries@.len(),
            l.len() == entries@.len(),
            html@ == html_prefix() + rows_html(l.take(i as int)),
        decreases entries@.len() - i,
    {
        let e = &entries[i];
        proof {
            assert(e@ == l[i as int]);
            assert(entry_wf(l[i as int]));
        }
        let row = render_row(e);
        html.append(row.as_str());
        proof {
            assert(l.take(i + 1).drop_last() =~= l.take(i as int));
            assert(l.take(i + 1).last() == l[i as int]);
            assert(html@ =~= html_prefix() + rows_html(l.take(i + 1)));
        }
        i += 1;
    }
    html.append("</tbody>");
    html.append("</table>");
    html.append("</body></html>");
    proof {
        assert(l.take(l.len() as int) =~= l);
        assert(html@ =~= render_spec(models(entries@)));
    }
    html
}

} // verus!
