//! File locations under the configuration directory, with the joining rules of
//! `std::path::Path::join` on Unix.

use crate::text::{chars_of, push_char, string_of};
use vstd::prelude::*;

verus! {

/// `base` joined with `comp`: an absolute `comp` replaces `base`; otherwise a
/// `/` goes between them unless `base` is empty or already ends with one.
pub open spec fn join(base: Seq<char>, comp: Seq<char>) -> Seq<char> {
    if comp.len() > 0 && comp[0] == '/' {
        comp
    } else if base.len() == 0 || base.last() == '/' {
        base + comp
    } else {
        base.push('/') + comp
    }
}

/// Joins a path and a component.
pub fn join_path(base: &str, comp: &str) -> (r: String)
    ensures
        r@ == join(base@, comp@),
{
    let b = chars_of(base);
    let c = chars_of(comp);
    if c.len() > 0 && c[0] == '/' {
        return string_of(c.as_slice());
    }
    let mut out = string_of(b.as_slice());
    if !(b.len() == 0 || b[b.len() - 1] == '/') {
        push_char(&mut out, '/');
    }
    let mut i: usize = 0;
    let ghost start = out@;
    while i < c.len()
        invariant
            i <= c@.len(),
            out@ == start + c@.take(i as int),
        decreases c@.len() - i,
    {
        push_char(&mut out, c[i]);
        i = i + 1;
        assert(out@ =~= start + c@.take(i as int));
    }
    assert(c@.take(c@.len() as int) =~= c@);
    out
}

/// Where the identity is kept: `identity.age` in the configuration directory.
pub fn identity_path(config: &str) -> (r: String)
    ensures
        r@ == join(config@, "identity.age"@),
{
    join_path(config, "identity.age")
}

/// Where the registry is kept: `registry.toml` in the configuration directory.
pub fn registry_path(config: &str) -> (r: String)
    ensures
        r@ == join(config@, "registry.toml"@),
{
    join_path(config, "registry.toml")
}

} // verus!
