//! The registered spellers, as lines of text.

use crate::reg::{StoredValue, ValueView};
use crate::table::Table;
use crate::text::views;
use vstd::prelude::*;
use vstd::string::*;

verus! {

pub const LIST_HEADING: &'static str = "Registered spellers:";

pub const LIST_EMPTY: &'static str = "  - No spellers registered.";

pub const ABSENT_TEXT: &'static str = "<None>";

/// A value as a line shows it.
pub open spec fn shown(value: ValueView) -> Seq<char> {
    match value {
        ValueView::Path(p) => p,
        ValueView::Absent => ABSENT_TEXT@,
        ValueView::Other(t) => t,
    }
}

/// The line of one entry: the name, an arrow, the value.
pub open spec fn entry_line(entry: (Seq<char>, ValueView)) -> Seq<char> {
    " - "@ + entry.0 + " -> "@ + shown(entry.1)
}

/// The lines of a table: a heading, then a line for each entry, or a line
/// that says there is none.
pub open spec fn listing(entries: Seq<(Seq<char>, ValueView)>) -> Seq<Seq<char>> {
    seq![LIST_HEADING@] + if entries.len() == 0 {
        seq![LIST_EMPTY@]
    } else {
        Seq::new(entries.len(), |i: int| entry_line(entries[i]))
    }
}

/// The lines that list the central table.
pub fn list(store: &Table<StoredValue>) -> (r: Vec<String>)
    requires
        store.wf(),
    ensures
        views(r@) == listing(store.entries()),
{
    let ghost entries = store.entries();
    let mut out: Vec<String> = Vec::new();
    out.push(String::from_str(LIST_HEADING));
    let n: usize = store.len();
    if n == 0 {
        out.push(String::from_str(LIST_EMPTY));
        assert(views(out@) =~= listing(entries));
        return out;
    }
    let mut i: usize = 0;
    while i < n
        invariant
            store.wf(),
            entries == store.entries(),
            n == entries.len(),
            i <= n,
            out@.len() == i + 1,
            out@[0]@ == LIST_HEADING@,
            forall|k: int| 0 <= k < i ==> (#[trigger] out@[k + 1])@ == entry_line(entries[k]),
        decreases n - i,
    {
        let mut line: String = String::from_str(" - ");
        line.append(store.name_at(i).as_str());
        line.append(" -> ");
        match store.value_at(i) {
            StoredValue::Path(p) => line.append(p.as_str()),
            StoredValue::Absent => line.append(ABSENT_TEXT),
            StoredValue::Other(t) => line.append(t.as_str()),
        }
        assert(line@ =~= entry_line(entries[i as int]));
        out.push(line);
        i = i + 1;
    }
    proof {
        let lines = listing(entries);
        let body = Seq::new(entries.len(), |i: int| entry_line(entries[i]));
        assert(lines == seq![LIST_HEADING@] + body);
        assert forall|k: int| 0 <= k < lines.len() implies views(out@)[k] == lines[k] by {
            if k > 0 {
                assert(out@[(k - 1) + 1]@ == entry_line(entries[k - 1]));
                assert(lines[k] == body[k - 1]);
            }
        }
        assert(views(out@) =~= lines);
    }
    out
}

} // verus!
