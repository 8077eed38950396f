//! Choosing between an HTML fragment and JSON for a response.
use vstd::prelude::*;

verus! {

/// How a response body is written.
#[derive(Debug, Clone, Copy, PartialEq, Eq, Structural)]
pub enum Representation {
    /// Rendered through a template as HTML.
    Html,
    /// Serialised as JSON.
    Json,
}

/// Whether `needle` occurs somewhere in `hay`.
pub open spec fn occurs_in(needle: Seq<char>, hay: Seq<char>) -> bool {
    exists|i: int| 0 <= i && i + needle.len() <= hay.len() && #[trigger] hay.subrange(i, i + needle.len()) == needle
}

/// Whether an `Accept` header value asks for JSON: it mentions `json`.
pub open spec fn accepts_json(accept: Option<Seq<char>>) -> bool {
    match accept {
        Some(a) => occurs_in("json"@, a),
        None => false,
    }
}

/// HTML unless the client sent no fragment signal and asked for JSON.
pub open spec fn chosen(fragment_signal: bool, accept: Option<Seq<char>>) -> Representation {
    if fragment_signal || !accepts_json(accept) {
        Representation::Html
    } else {
        Representation::Json
    }
}

pub open spec fn opt_view(s: Option<&str>) -> Option<Seq<char>> {
    match s {
        Some(t) => Some(t@),
        None => None,
    }
}

/// Whether `hay` holds `json`.
fn mentions_json(hay: &str) -> (r: bool)
    ensures
        r == occurs_in("json"@, hay@),
{
    proof {
        reveal_strlit("json");
    }
    let n = hay.unicode_len();
    if n < 4 {
        return false;
    }
    let mut i: usize = 0;
    while i < n - 3
        invariant
            n == hay@.len(),
            4 <= n,
            i <= n - 3,
            forall|k: int| 0 <= k < i ==> #[trigger] hay@.subrange(k, k + 4) != "json"@,
        decreases n - i,
    {
        proof {
            reveal_strlit("json");
        }
        if hay.get_char(i) == 'j' && hay.get_char(i + 1) == 's' && hay.get_char(i + 2) == 'o'
            && hay.get_char(i + 3) == 'n' {
            assert(hay@.subrange(i as int, i + 4) =~= "json"@);
            return true;
        }
        assert(hay@.subrange(i as int, i + 4)[0] == hay@[i as int]);
        assert(hay@.subrange(i as int, i + 4)[1] == hay@[i + 1]);
        assert(hay@.subrange(i as int, i + 4)[2] == hay@[i + 2]);
        assert(hay@.subrange(i as int, i + 4)[3] == hay@[i + 3]);
        i = i + 1;
    }
    false
}

/// Picks the representation of a response: HTML when the request carries the
/// fragment signal or its `Accept` value (if any) does not mention `json`,
/// JSON otherwise.
pub fn choose_representation(fragment_signal: bool, accept: Option<&str>) -> (r: Representation)
    ensures
        r == chosen(fragment_signal, opt_view(accept)),
{
    if fragment_signal {
        return Representation::Html;
    }
    match accept {
        Some(a) => if mentions_json(a) {
            Representation::Json
        } else {
            Representation::Html
        },
        None => Representation::Html,
    }
}

/// handlebars' template registry, carried through unopened.
#[verifier::external_type_specification]
#[verifier::external_body]
pub struct ExHandlebars<'reg>(handlebars::Handlebars<'reg>);

/// Data waiting to be written either through the template `template` of the
/// registry `hb`, or as JSON.
pub struct ResponseRenderer<'reg, T> {
    pub data: T,
    pub template: &'static str,
    pub hb: std::sync::Arc<handlebars::Handlebars<'reg>>,
}

impl<'reg, T> ResponseRenderer<'reg, T> {
    pub fn new(data: T, template: &'static str, hb: std::sync::Arc<handlebars::Handlebars<'reg>>) -> (r: Self)
        ensures
            r.data == data,
            r.template == template,
            r.hb == hb,
    {
        ResponseRenderer { data, template, hb }
    }
}

} // verus!
