//! Splitting of a coordinate pair written as `lat,lon`.

use vstd::prelude::*;
use vstd::std_specs::iter::IteratorSpec;
use vstd::string::*;

verus! {

/// The number of commas in a text.
pub open spec fn comma_count(text: Seq<char>) -> nat
    decreases text.len(),
{
    if text.len() == 0 {
        0
    } else {
        comma_count(text.drop_last()) + if text.last() == ',' {
            1nat
        } else {
            0nat
        }
    }
}

/// Splits a pair at its comma. A text has two parts exactly where it holds
/// one comma; the parts are what stands before and behind it.
pub fn split_latlon<'a>(s: &'a str) -> (r: Option<(&'a str, &'a str)>)
    ensures
        r.is_some() == (comma_count(s@) == 1),
        match r {
            Some((lat, lon)) => {
                &&& s@ == lat@ + seq![','] + lon@
                &&& !lat@.contains(',')
                &&& !lon@.contains(',')
            },
            None => true,
        },
{
    let n: usize = s.unicode_len();
    let mut chars = s.chars();
    let mut count: usize = 0;
    let mut at: usize = 0;
    let mut i: usize = 0;
    assert(s@.take(0) =~= Seq::empty());
    assert(s@.skip(0) =~= s@);
    loop
        invariant_except_break
            IteratorSpec::remaining(&chars) == s@.skip(i as int),
        invariant
            i <= n,
            n == s@.len(),
            count <= i,
            count == comma_count(s@.take(i as int)),
            count == 0 ==> forall|k: int| 0 <= k < i ==> s@[k] != ',',
            count >= 1 ==> at < i && s@[at as int] == ',',
            count >= 1 ==> forall|k: int| 0 <= k < at ==> s@[k] != ',',
            count == 1 ==> forall|k: int| at < k < i ==> s@[k] != ',',
        ensures
            i == n,
        decreases n - i,
    {
        let ghost before = chars;
        let next = chars.next();
        proof {
            next_postcondition(&before, &chars, next);
        }
        match next {
            Some(c) => {
                proof {
                    let seen = s@.take(i + 1);
                    assert(seen.drop_last() =~= s@.take(i as int));
                    assert(seen.last() == s@[i as int]);
                    assert(s@.skip(i as int)[0] == s@[i as int]);
                    assert(s@.skip(i as int).drop_first() =~= s@.skip(i + 1));
                }
                if c == ',' {
                    if count == 0 {
                        at = i;
                    }
                    count = count + 1;
                }
                i = i + 1;
            },
            None => {
                break ;
            },
        }
    }
    assert(s@.take(i as int) =~= s@);
    if count != 1 {
        return None;
    }
    let lat = s.substring_char(0, at);
    let lon = s.substring_char(at + 1, n);
    assert(s@ =~= lat@ + seq![','] + lon@);
    assert(!lat@.contains(',')) by {
        if lat@.contains(',') {
            let k = choose|k: int| 0 <= k < lat@.len() && lat@[k] == ',';
            assert(s@[k] == ',');
        }
    }
    assert(!lon@.contains(',')) by {
        if lon@.contains(',') {
            let k = choose|k: int| 0 <= k < lon@.len() && lon@[k] == ',';
            assert(s@[at + 1 + k] == ',');
        }
    }
    Some((lat, lon))
}

} // verus!
