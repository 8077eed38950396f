//! The name pattern that a recursive search walks the root with.
use vstd::prelude::*;
use crate::path_guard::{display, DrivePath};

verus! {

pub open spec fn is_glob_meta(c: char) -> bool {
    c == '?' || c == '*' || c == '[' || c == ']'
}

/// `s` with each glob metacharacter wrapped in brackets, so that it matches
/// only itself.
pub open spec fn glob_escaped(s: Seq<char>) -> Seq<char>
    decreases s.len(),
{
    if s.len() == 0 {
        Seq::empty()
    } else {
        let c = s.last();
        glob_escaped(s.drop_last()) + if is_glob_meta(c) {
            seq!['[', c, ']']
        } else {
            seq![c]
        }
    }
}

/// Relies on glob::Pattern::escape: it wraps each of `?`, `*`, `[`, `]` in
/// brackets and keeps every other character, in order.
#[verifier::external_body]
fn glob_escape(s: &str) -> (r: String)
    ensures
        r@ == glob_escaped(s@),
{
    glob::Pattern::escape(s)
}

/// The pattern of a search for `query` below `base_dir`: any entry at any
/// depth whose name starts with `query`. Both `base_dir` and `query` are
/// taken literally: glob metacharacters in them match only themselves.
pub fn search_pattern(base_dir: &DrivePath, query: &str) -> (r: String)
    ensures
        r@ == glob_escaped(display(base_dir@)) + "/**/"@ + glob_escaped(query@) + "*"@,
{
    let base = base_dir.to_path_string();
    let mut r = glob_escape(base.as_str());
    r.append("/**/");
    let q = glob_escape(query);
    r.append(q.as_str());
    r.append("*");
    r
}

} // verus!
