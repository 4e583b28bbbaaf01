//! Query strings of the backend's REST calls.

use vstd::prelude::*;
use convert_case::{Case, Casing};
use crate::text::text_option;

verus! {

/// What convert_case makes of a name in camel case.
pub uninterp spec fn camel_case_of(name: Seq<char>) -> Seq<char>;

/// Relies on convert_case's `Casing::to_case` with `Case::Camel`: the result
/// depends on the name alone.
#[verifier::external_body]
fn to_camel_case(name: &str) -> (r: String)
    ensures
        r@ == camel_case_of(name@),
{
    name.to_case(Case::Camel)
}

/// A parameter list with names and values seen as character sequences.
pub open spec fn params_view(params: Seq<(String, Option<String>)>) -> Seq<
    (Seq<char>, Option<Seq<char>>),
> {
    params.map_values(|p: (String, Option<String>)| (p.0@, text_option(p.1)))
}

/// The same list with every name in camel case.
pub open spec fn camel_names(params: Seq<(Seq<char>, Option<Seq<char>>)>) -> Seq<
    (Seq<char>, Option<Seq<char>>),
> {
    params.map_values(|p: (Seq<char>, Option<Seq<char>>)| (camel_case_of(p.0), p.1))
}

/// `name=value` for each parameter that has a value, in order.
pub open spec fn query_parts(params: Seq<(Seq<char>, Option<Seq<char>>)>) -> Seq<Seq<char>>
    decreases params.len(),
{
    if params.len() == 0 {
        Seq::empty()
    } else {
        let prev = query_parts(params.drop_last());
        match params.last().1 {
            Some(v) => prev.push(params.last().0 + "="@ + v),
            None => prev,
        }
    }
}

/// The parts with `sep` between each two.
pub open spec fn joined(parts: Seq<Seq<char>>, sep: Seq<char>) -> Seq<char>
    decreases parts.len(),
{
    if parts.len() == 0 {
        Seq::empty()
    } else if parts.len() == 1 {
        parts[0]
    } else {
        joined(parts.drop_last(), sep) + sep + parts.last()
    }
}

/// The query for a parameter list: none when no parameter has a value.
pub open spec fn query_of(params: Seq<(Seq<char>, Option<Seq<char>>)>) -> Option<Seq<char>> {
    if query_parts(params).len() == 0 {
        None
    } else {
        Some(joined(query_parts(params), "&"@))
    }
}

/// Joins the parameters that have a value into `name=value&...`, names as given.
pub fn encode_query(params: &Vec<(String, Option<String>)>) -> (r: Option<String>)
    ensures
        text_option(r) == query_of(params_view(params@)),
{
    let ghost ps = params_view(params@);
    let mut out = String::new();
    let mut count: usize = 0;
    let mut i: usize = 0;
    while i < params.len()
        invariant
            i <= params@.len(),
            ps == params_view(params@),
            count <= i,
            count == query_parts(ps.take(i as int)).len(),
            out@ == joined(query_parts(ps.take(i as int)), "&"@),
        decreases params@.len() - i,
    {
        let ghost prev = query_parts(ps.take(i as int));
        assert(ps.take(i + 1).drop_last() =~= ps.take(i as int));
        match &params[i].1 {
            Some(v) => {
                if count > 0 {
                    out.append("&");
                }
                out.append(params[i].0.as_str());
                out.append("=");
                out.append(v.as_str());
                let ghost part = params@[i as int].0@ + "="@ + v@;
                assert(query_parts(ps.take(i + 1)) == prev.push(part));
                assert(prev.push(part).drop_last() =~= prev);
                if count > 0 {
                    assert(out@ =~= joined(prev, "&"@) + "&"@ + part);
                } else {
                    assert(out@ =~= part);
                }
                count += 1;
            },
            None => {},
        }
        i += 1;
    }
    assert(ps.take(params@.len() as int) =~= ps);
    if count == 0 {
        None
    } else {
        Some(out)
    }
}

/// The query string of a request: parameter names in camel case, parameters
/// without a value left out, none when nothing is left.
pub fn build_query_string(params: &Vec<(String, Option<String>)>) -> (r: Option<String>)
    ensures
        text_option(r) == query_of(camel_names(params_view(params@))),
{
    let mut renamed: Vec<(String, Option<String>)> = Vec::new();
    let mut i: usize = 0;
    while i < params.len()
        invariant
            i <= params@.len(),
            renamed@.len() == i,
            params_view(renamed@) =~= camel_names(params_view(params@.take(i as int))),
        decreases params@.len() - i,
    {
        let ghost before = renamed@;
        let value = match &params[i].1 {
            Some(v) => Some(v.clone()),
            None => None,
        };
        assert(text_option(value) == text_option(params@[i as int].1));
        renamed.push((to_camel_case(params[i].0.as_str()), value));
        assert(renamed@ == before.push(renamed@[i as int]));
        assert forall|j: int| 0 <= j < i + 1 implies #[trigger] params_view(renamed@)[j]
            == camel_names(params_view(params@.take(i + 1)))[j] by {
            if j < i {
                assert(params_view(before)[j] == camel_names(params_view(params@.take(i as int)))[j]);
                assert(params@.take(i + 1)[j] == params@.take(i as int)[j]);
            }
        }
        i += 1;
    }
    assert(params@.take(params@.len() as int) =~= params@);
    encode_query(&renamed)
}

fn param(name: &str, value: &str) -> (r: (String, Option<String>))
    ensures
        r.0@ == name@,
        text_option(r.1) == Some(value@),
{
    (String::from_str(name), Some(String::from_str(value)))
}

/// The queue fetch: completed items only, with their series embedded, in one
/// page large enough for the whole queue.
pub fn fetch_queue_params() -> (r: Vec<(String, Option<String>)>)
    ensures
        params_view(r@) == seq![
            ("page_size"@, Some("1000"@)),
            ("include_series"@, Some("true"@)),
            ("status"@, Some("completed"@)),
        ],
{
    let mut r = Vec::new();
    r.push(param("page_size", "1000"));
    r.push(param("include_series", "true"));
    r.push(param("status", "completed"));
    assert(params_view(r@) =~= seq![
        ("page_size"@, Some("1000"@)),
        ("include_series"@, Some("true"@)),
        ("status"@, Some("completed"@)),
    ]);
    r
}

/// The bulk delete: items leave the download client too, not only the queue.
pub fn delete_queue_params() -> (r: Vec<(String, Option<String>)>)
    ensures
        params_view(r@) == seq![("remove_from_client"@, Some("true"@))],
{
    let mut r = Vec::new();
    r.push(param("remove_from_client", "true"));
    assert(params_view(r@) =~= seq![("remove_from_client"@, Some("true"@))]);
    r
}

} // verus!
