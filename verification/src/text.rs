//! Text helpers shared by the scanner and the planner.

use vstd::prelude::*;
use vstd::std_specs::iter::IteratorSpec;
use vstd::string::*;
use vstd::utf8::*;

verus! {

broadcast use vstd::string::group_string_axioms;

/// `line` followed by one line feed: the form in which a line enters a
/// module body.
pub open spec fn terminated(line: Seq<char>) -> Seq<char> {
    line.push('\n')
}

/// Whether two texts hold the same characters.
pub fn same_text(a: &str, b: &str) -> (r: bool)
    ensures
        r == (a@ == b@),
{
    let x = a.as_bytes();
    let y = b.as_bytes();
    proof {
        encode_utf8_decode_utf8(a@);
        encode_utf8_decode_utf8(b@);
    }
    if x.len() != y.len() {
        return false;
    }
    let n = x.len();
    let mut i: usize = 0;
    while i < n
        invariant
            i <= n,
            n == x@.len(),
            n == y@.len(),
            x@ == a.spec_bytes(),
            y@ == b.spec_bytes(),
            forall|k: int| 0 <= k < i ==> x@[k] == y@[k],
        decreases n - i,
    {
        if x[i] != y[i] {
            return false;
        }
        i += 1;
    }
    assert(x@ =~= y@);
    true
}

/// Whether `text` begins with `prefix`.
pub fn begins_with(text: &str, prefix: &str) -> (r: bool)
    ensures
        r == prefix@.is_prefix_of(text@),
{
    let mut rest = text.chars();
    let mut wanted = prefix.chars();
    let ghost mut k: int = 0;
    assert(prefix@.skip(0) =~= prefix@);
    assert(text@.skip(0) =~= text@);
    loop
        invariant
            0 <= k <= prefix@.len(),
            k <= text@.len(),
            wanted.remaining() == prefix@.skip(k),
            rest.remaining() == text@.skip(k),
            prefix@.take(k) =~= text@.take(k),
        decreases prefix@.len() - k,
    {
        match wanted.next() {
            None => {
                assert(prefix@.take(k) =~= prefix@);
                assert(text@.take(k) =~= text@.subrange(0, prefix@.len() as int));
                return true;
            },
            Some(w) => {
                match rest.next() {
                    None => {
                        return false;
                    },
                    Some(c) => {
                        if c != w {
                            assert(prefix@[k] != text@[k]);
                            return false;
                        }
                    },
                }
            },
        }
        proof {
            assert(prefix@.skip(k).drop_first() =~= prefix@.skip(k + 1));
            assert(text@.skip(k).drop_first() =~= text@.skip(k + 1));
            assert(prefix@.take(k + 1) =~= prefix@.take(k).push(prefix@[k]));
            assert(text@.take(k + 1) =~= text@.take(k).push(text@[k]));
            k = k + 1;
        }
    }
}

/// Appends `line` and a line feed to `body`.
pub fn push_line(body: &mut String, line: &str)
    ensures
        final(body)@ == old(body)@ + terminated(line@),
{
    body.append(line);
    body.append("\n");
    proof {
        reveal_strlit("\n");
        assert("\n"@ =~= seq!['\n']);
        assert(final(body)@ =~= old(body)@ + terminated(line@));
    }
}

} // verus!
