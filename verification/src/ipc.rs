//! The launcher's wire format: each response is one line of compact JSON,
//! members in key order, as the launcher reads it.

use vstd::prelude::*;
use crate::json::{Json, json_str, push_json_str, spec_get, spec_as_str, spec_as_u64, get, get_str, get_u64};
use crate::text::{dec_nat, fmt_u64, push_all, push_str, string_of, str_eq};

verus! {

/// The line for a result row.
pub open spec fn append_line(id: nat, name: Seq<char>, description: Seq<char>, icon: Seq<char>) -> Seq<
    char,
> {
    "{\"Append\":{\"description\":"@ + json_str(description) + ",\"exec\":null,\"icon\":{\"Name\":"@
        + json_str(icon) + "},\"id\":"@ + dec_nat(id) + ",\"keywords\":null,\"name\":"@ + json_str(
        name,
    ) + ",\"window\":null}}"@
}

/// The line for one context option.
pub open spec fn option_item(i: nat, name: Seq<char>) -> Seq<char> {
    "{\"id\":"@ + dec_nat(i) + ",\"name\":"@ + json_str(name) + "}"@
}

/// The context options, comma-separated, numbered from zero.
pub open spec fn option_items(names: Seq<Seq<char>>) -> Seq<char>
    decreases names.len(),
{
    if names.len() == 0 {
        Seq::empty()
    } else if names.len() == 1 {
        option_item(0, names[0])
    } else {
        option_items(names.drop_last()) + ","@ + option_item(
            (names.len() - 1) as nat,
            names.last(),
        )
    }
}

/// The line for a context menu.
pub open spec fn context_line(id: nat, names: Seq<Seq<char>>) -> Seq<char> {
    "{\"Context\":{\"id\":"@ + dec_nat(id) + ",\"options\":["@ + option_items(names) + "]}}"@
}

/// The line for a `Fill`.
pub open spec fn fill_line(text: Seq<char>) -> Seq<char> {
    "{\"Fill\":"@ + json_str(text) + "}"@
}

/// The line for a result row.
pub fn append(id: usize, name: &str, description: &str, icon: &str) -> (r: String)
    ensures
        r@ == append_line(id as nat, name@, description@, icon@),
{
    let mut out: Vec<char> = Vec::new();
    push_str(&mut out, "{\"Append\":{\"description\":");
    push_json_str(&mut out, description);
    push_str(&mut out, ",\"exec\":null,\"icon\":{\"Name\":");
    push_json_str(&mut out, icon);
    push_str(&mut out, "},\"id\":");
    let d = fmt_u64(id as u64);
    push_all(&mut out, &d);
    push_str(&mut out, ",\"keywords\":null,\"name\":");
    push_json_str(&mut out, name);
    push_str(&mut out, ",\"window\":null}}");
    string_of(&out)
}

/// The line that clears the results.
pub fn clear() -> (r: String)
    ensures
        r@ == "{\"Clear\":null}"@,
{
    let mut out: Vec<char> = Vec::new();
    push_str(&mut out, "{\"Clear\":null}");
    string_of(&out)
}

/// The line that ends a list of results.
pub fn finished() -> (r: String)
    ensures
        r@ == "{\"Finished\":null}"@,
{
    let mut out: Vec<char> = Vec::new();
    push_str(&mut out, "{\"Finished\":null}");
    string_of(&out)
}

/// The line that replaces the query text with `text`.
pub fn fill(text: &str) -> (r: String)
    ensures
        r@ == fill_line(text@),
{
    let mut out: Vec<char> = Vec::new();
    push_str(&mut out, "{\"Fill\":");
    push_json_str(&mut out, text);
    push_str(&mut out, "}");
    string_of(&out)
}

/// The line that closes the launcher.
pub fn close() -> (r: String)
    ensures
        r@ == "{\"Close\":null}"@,
{
    let mut out: Vec<char> = Vec::new();
    push_str(&mut out, "{\"Close\":null}");
    string_of(&out)
}

/// The line for a right-click menu on result `id`. The launcher answers with
/// the position of the chosen option, so options are numbered by position.
pub fn context(id: usize, options: &Vec<String>) -> (r: String)
    ensures
        r@ == context_line(id as nat, options@.map_values(|s: String| s@)),
{
    let ghost names = options@.map_values(|s: String| s@);
    let mut out: Vec<char> = Vec::new();
    push_str(&mut out, "{\"Context\":{\"id\":");
    let d = fmt_u64(id as u64);
    push_all(&mut out, &d);
    push_str(&mut out, ",\"options\":[");
    let ghost head = out@;
    let mut i: usize = 0;
    while i < options.len()
        invariant
            i <= options.len(),
            names == options@.map_values(|s: String| s@),
            out@ == head + option_items(names.take(i as int)),
        decreases options.len() - i,
    {
        assert(names.take(i + 1).drop_last() == names.take(i as int));
        assert(names.take(i + 1).last() == options@[i as int]@);
        if i > 0 {
            push_str(&mut out, ",");
        }
        push_str(&mut out, "{\"id\":");
        let k = fmt_u64(i as u64);
        push_all(&mut out, &k);
        push_str(&mut out, ",\"name\":");
        push_json_str(&mut out, options[i].as_str());
        push_str(&mut out, "}");
        i = i + 1;
    }
    assert(names.take(options.len() as int) == names);
    push_str(&mut out, "]}}");
    string_of(&out)
}

/// A request from the launcher.
pub enum Request {
    Search(String),
    Activate(usize),
    Context(usize),
    ActivateContext(usize, usize),
    Exit,
    /// Anything else (`Interrupt`, unknown requests): nothing to do.
    Ignore,
}

pub enum RequestView {
    Search(Seq<char>),
    Activate(usize),
    Context(usize),
    ActivateContext(usize, usize),
    Exit,
    Ignore,
}

impl View for Request {
    type V = RequestView;

    open spec fn view(&self) -> RequestView {
        match self {
            Request::Search(q) => RequestView::Search(q@),
            Request::Activate(i) => RequestView::Activate(*i),
            Request::Context(i) => RequestView::Context(*i),
            Request::ActivateContext(i, c) => RequestView::ActivateContext(*i, *c),
            Request::Exit => RequestView::Exit,
            Request::Ignore => RequestView::Ignore,
        }
    }
}

/// The request a JSON message stands for. Unit requests come as bare
/// strings (`"Exit"`); the others as objects with one member, checked in the
/// order `Search` (a string), `Activate` and `Context` (integers), then
/// `ActivateContext` (an object with integer `id` and `context`, else
/// nothing), then `Exit`.
pub open spec fn spec_request(j: Json) -> RequestView {
    match j {
        Json::Str(s) => if s@ == "Exit"@ {
            RequestView::Exit
        } else {
            RequestView::Ignore
        },
        Json::Object(_) => {
            if let Some(q) = spec_as_str(spec_get(j, "Search"@)) {
                RequestView::Search(q)
            } else if let Some(i) = spec_as_u64(spec_get(j, "Activate"@)) {
                RequestView::Activate(i as usize)
            } else if let Some(i) = spec_as_u64(spec_get(j, "Context"@)) {
                RequestView::Context(i as usize)
            } else if let Some(ac) = spec_get(j, "ActivateContext"@) {
                if ac is Object {
                    match (spec_as_u64(spec_get(ac, "id"@)), spec_as_u64(spec_get(ac, "context"@))) {
                        (Some(i), Some(c)) => RequestView::ActivateContext(i as usize, c as usize),
                        _ => RequestView::Ignore,
                    }
                } else if spec_get(j, "Exit"@) is Some {
                    RequestView::Exit
                } else {
                    RequestView::Ignore
                }
            } else if spec_get(j, "Exit"@) is Some {
                RequestView::Exit
            } else {
                RequestView::Ignore
            }
        },
        _ => RequestView::Ignore,
    }
}

/// The request a JSON message from the launcher stands for.
pub fn parse_request(j: &Json) -> (r: Request)
    ensures
        r@ == spec_request(*j),
{
    match j {
        Json::Str(s) => {
            if str_eq(s.as_str(), "Exit") {
                Request::Exit
            } else {
                Request::Ignore
            }
        },
        Json::Object(_) => {
            if let Some(q) = get_str(j, "Search") {
                Request::Search(q.clone())
            } else if let Some(i) = get_u64(j, "Activate") {
                Request::Activate(i as usize)
            } else if let Some(i) = get_u64(j, "Context") {
                Request::Context(i as usize)
            } else if let Some(ac) = get(j, "ActivateContext") {
                if let Json::Object(_) = ac {
                    match (get_u64(ac, "id"), get_u64(ac, "context")) {
                        (Some(i), Some(c)) => Request::ActivateContext(i as usize, c as usize),
                        _ => Request::Ignore,
                    }
                } else if get(j, "Exit").is_some() {
                    Request::Exit
                } else {
                    Request::Ignore
                }
            } else if get(j, "Exit").is_some() {
                Request::Exit
            } else {
                Request::Ignore
            }
        },
        _ => Request::Ignore,
    }
}

} // verus!
