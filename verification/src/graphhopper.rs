//! Addresses of the routing engine.

use vstd::prelude::*;
use vstd::std_specs::iter::IteratorSpec;
use vstd::string::*;

verus! {

/// A text without the slashes at its end.
pub open spec fn without_trailing_slashes(text: Seq<char>) -> Seq<char>
    decreases text.len(),
{
    if text.len() > 0 && text.last() == '/' {
        without_trailing_slashes(text.drop_last())
    } else {
        text
    }
}

/// The address of the engine's route endpoint for a base address.
pub open spec fn route_endpoint_text(gh_base: Seq<char>) -> Seq<char> {
    without_trailing_slashes(gh_base) + "/route"@
}

/// A text that consists of slashes from `end` on, and has none just before
/// `end`, is the text up to `end` once its trailing slashes are taken away.
proof fn lemma_trailing_slashes(text: Seq<char>, end: int)
    requires
        0 <= end <= text.len(),
        end > 0 ==> text[end - 1] != '/',
        forall|k: int| end <= k < text.len() ==> text[k] == '/',
    ensures
        without_trailing_slashes(text) == text.take(end),
    decreases text.len() - end,
{
    if end == text.len() {
        assert(text.take(end) =~= text);
    } else {
        let shorter = text.drop_last();
        lemma_trailing_slashes(shorter, end);
        assert(shorter.take(end) =~= text.take(end));
    }
}

/// The address of the routing engine's route endpoint: the base address
/// without the slashes at its end, followed by `/route`.
pub fn route_endpoint(gh_base: &str) -> (r: String)
    ensures
        r@ == route_endpoint_text(gh_base@),
{
    let n: usize = gh_base.unicode_len();
    let mut chars = gh_base.chars();
    let mut end: usize = 0;
    let mut i: usize = 0;
    assert(gh_base@.skip(0) =~= gh_base@);
    loop
        invariant_except_break
            IteratorSpec::remaining(&chars) == gh_base@.skip(i as int),
        invariant
            end <= i <= n,
            n == gh_base@.len(),
            end > 0 ==> gh_base@[end - 1] != '/',
            forall|k: int| end <= k < i ==> gh_base@[k] == '/',
        ensures
            i == n,
        decreases n - i,
    {
        let ghost before = chars;
        let next = chars.next();
        proof {
            next_postcondition(&before, &chars, next);
        }
        match next {
            Some(c) => {
                proof {
                    assert(gh_base@.skip(i as int)[0] == gh_base@[i as int]);
                    assert(gh_base@.skip(i as int).drop_first() =~= gh_base@.skip(i + 1));
                }
                i = i + 1;
                if c != '/' {
                    end = i;
                }
            },
            None => {
                break ;
            },
        }
    }
    proof {
        lemma_trailing_slashes(gh_base@, end as int);
    }
    let kept = gh_base.substring_char(0, end);
    assert(kept@ =~= gh_base@.take(end as int));
    String::from_str(kept).concat("/route")
}

} // verus!
