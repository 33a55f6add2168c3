use vstd::prelude::*;
use crate::text::{chars_of, ext_of, extension_of_chars};

verus! {

/// The closed set of file extensions the manager serves.
pub open spec fn is_supported_ext(e: Seq<char>) -> bool {
    ||| e == seq!['t', 's']
    ||| e == seq!['t', 's', 'x']
    ||| e == seq!['j', 's']
    ||| e == seq!['j', 's', 'x']
    ||| e == seq!['m', 'j', 's']
    ||| e == seq!['c', 'j', 's']
    ||| e == seq!['j', 's', 'o', 'n']
}

/// Whether the extension held in `e` is one the manager serves.
pub fn supported_ext_chars(e: &Vec<char>) -> (r: bool)
    ensures
        r == is_supported_ext(e@),
{
    if e.len() == 2 {
        let r = (e[0] == 't' || e[0] == 'j') && e[1] == 's';
        proof {
            if r {
                if e@[0] == 't' {
                    assert(e@ =~= seq!['t', 's']);
                } else {
                    assert(e@ =~= seq!['j', 's']);
                }
            }
        }
        r
    } else if e.len() == 3 {
        let tsx = e[0] == 't' && e[1] == 's' && e[2] == 'x';
        let jsx = e[0] == 'j' && e[1] == 's' && e[2] == 'x';
        let mjs = e[0] == 'm' && e[1] == 'j' && e[2] == 's';
        let cjs = e[0] == 'c' && e[1] == 'j' && e[2] == 's';
        proof {
            if tsx {
                assert(e@ =~= seq!['t', 's', 'x']);
            }
            if jsx {
                assert(e@ =~= seq!['j', 's', 'x']);
            }
            if mjs {
                assert(e@ =~= seq!['m', 'j', 's']);
            }
            if cjs {
                assert(e@ =~= seq!['c', 'j', 's']);
            }
        }
        tsx || jsx || mjs || cjs
    } else if e.len() == 4 {
        let r = e[0] == 'j' && e[1] == 's' && e[2] == 'o' && e[3] == 'n';
        proof {
            if r {
                assert(e@ =~= seq!['j', 's', 'o', 'n']);
            }
        }
        r
    } else {
        false
    }
}

/// Whether the manager can serve `file_path`, by its extension alone.
pub fn lsp_is_language_supported(file_path: String) -> (r: bool)
    ensures
        r == is_supported_ext(ext_of(file_path@)),
{
    let v = chars_of(file_path.as_str());
    let e = extension_of_chars(&v);
    supported_ext_chars(&e)
}

/// The protocol language identifier for a file extension; extensions
/// outside the closed set map to the plain-text identifier.
pub open spec fn language_id_of_ext(e: Seq<char>) -> Seq<char> {
    if e == seq!['t', 's'] {
        "typescript"@
    } else if e == seq!['t', 's', 'x'] {
        "typescriptreact"@
    } else if e == seq!['j', 's'] || e == seq!['m', 'j', 's'] || e == seq!['c', 'j', 's'] {
        "javascript"@
    } else if e == seq!['j', 's', 'x'] {
        "javascriptreact"@
    } else if e == seq!['j', 's', 'o', 'n'] {
        "json"@
    } else {
        "plaintext"@
    }
}

/// The protocol language identifier for the extension held in `e`.
pub fn language_id_for_ext(e: &Vec<char>) -> (r: String)
    ensures
        r@ == language_id_of_ext(e@),
{
    if e.len() == 2 && e[0] == 't' && e[1] == 's' {
        assert(e@ =~= seq!['t', 's']);
        String::from_str("typescript")
    } else if e.len() == 3 && e[0] == 't' && e[1] == 's' && e[2] == 'x' {
        assert(e@ =~= seq!['t', 's', 'x']);
        String::from_str("typescriptreact")
    } else if e.len() == 2 && e[0] == 'j' && e[1] == 's' {
        assert(e@ =~= seq!['j', 's']);
        String::from_str("javascript")
    } else if e.len() == 3 && e[0] == 'm' && e[1] == 'j' && e[2] == 's' {
        assert(e@ =~= seq!['m', 'j', 's']);
        String::from_str("javascript")
    } else if e.len() == 3 && e[0] == 'c' && e[1] == 'j' && e[2] == 's' {
        assert(e@ =~= seq!['c', 'j', 's']);
        String::from_str("javascript")
    } else if e.len() == 3 && e[0] == 'j' && e[1] == 's' && e[2] == 'x' {
        assert(e@ =~= seq!['j', 's', 'x']);
        String::from_str("javascriptreact")
    } else if e.len() == 4 && e[0] == 'j' && e[1] == 's' && e[2] == 'o' && e[3] == 'n' {
        assert(e@ =~= seq!['j', 's', 'o', 'n']);
        String::from_str("json")
    } else {
        proof {
            assert(e@ != seq!['t', 's'] && e@ != seq!['t', 's', 'x'] && e@ != seq!['j', 's'] && e@
                != seq!['m', 'j', 's'] && e@ != seq!['c', 'j', 's'] && e@ != seq!['j', 's', 'x']
                && e@ != seq!['j', 's', 'o', 'n']);
        }
        String::from_str("plaintext")
    }
}

} // verus!
