//! What the runner says when one of its threads panics.

use crate::analyze::{runner_line, runner_prefix};
use crate::names::texts;
use crate::text::{decimal, decimal_u64};
use vstd::prelude::*;

verus! {

/// Where a panic happened.
#[derive(Debug, Clone, Copy)]
pub struct PanicPlace<'a> {
    pub file: &'a str,
    pub line: u32,
    pub column: u32,
}

/// The text, or another where there is none.
pub open spec fn text_or(s: Option<&str>, other: Seq<char>) -> Seq<char> {
    match s {
        Some(s) => s@,
        None => other,
    }
}

/// The lines about a panic: the thread and what it said, then where it happened.
pub open spec fn panic_text(
    runner: Seq<char>,
    thread: Option<&str>,
    payload: Option<&str>,
    place: Option<PanicPlace<'_>>,
) -> Seq<Seq<char>> {
    let first = runner_prefix(runner) + "PANIC in thread '"@ + text_or(thread, "<unnamed>"@) + "': "@
        + text_or(payload, "<non-string panic payload>"@);
    match place {
        None => seq![first],
        Some(p) => seq![
            first,
            runner_prefix(runner) + "panic location: "@ + p.file@ + ":"@ + decimal(p.line as nat) + ":"@
                + decimal(p.column as nat),
        ],
    }
}

/// The lines about a panic.
pub fn panic_lines(
    runner_name: &str,
    thread: Option<&str>,
    payload: Option<&str>,
    place: Option<PanicPlace<'_>>,
) -> (r: Vec<String>)
    ensures
        texts(r@) == panic_text(runner_name@, thread, payload, place),
{
    let mut first = runner_line(runner_name);
    first.append("PANIC in thread '");
    first.append(match thread {
        Some(s) => s,
        None => "<unnamed>",
    });
    first.append("': ");
    first.append(match payload {
        Some(s) => s,
        None => "<non-string panic payload>",
    });
    let mut r: Vec<String> = Vec::new();
    r.push(first);
    match place {
        None => {},
        Some(p) => {
            let mut second = runner_line(runner_name);
            second.append("panic location: ");
            second.append(p.file);
            second.append(":");
            second.append(decimal_u64(p.line as u64).as_str());
            second.append(":");
            second.append(decimal_u64(p.column as u64).as_str());
            r.push(second);
        },
    }
    assert(texts(r@) =~= panic_text(runner_name@, thread, payload, place));
    r
}

/// What is said of a panic: one line with the runner, the thread and what it said, and just
/// where the place is known a second one with the file, the line and the column; a thread
/// without a name and a payload that is no text are named as such.
pub proof fn panics_are_told_in_full(
    runner: &str,
    thread: Option<&str>,
    payload: Option<&str>,
    place: Option<PanicPlace<'_>>,
    r: Vec<String>,
)
    requires
        call_ensures(panic_lines, (runner, thread, payload, place), r),
    ensures
        r@.len() == if place is Some {
            2int
        } else {
            1int
        },
        r@[0]@ == "[runner:"@ + runner@ + "] "@ + "PANIC in thread '"@ + (if thread is Some {
            thread->0@
        } else {
            "<unnamed>"@
        }) + "': "@ + (if payload is Some {
            payload->0@
        } else {
            "<non-string panic payload>"@
        }),
        place is Some ==> r@[1]@ == "[runner:"@ + runner@ + "] "@ + "panic location: "@ + place->0.file@
            + ":"@ + decimal(place->0.line as nat) + ":"@ + decimal(place->0.column as nat),
{
    let t = texts(r@);
    assert(t == panic_text(runner@, thread, payload, place));
    assert(t.len() == r@.len());
    assert(t[0] == r@[0]@);
    if place is Some {
        assert(t[1] == r@[1]@);
    }
}

} // verus!
