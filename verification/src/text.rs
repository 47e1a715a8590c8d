//! Strings as sequences of characters.

use vstd::prelude::*;

verus! {

/// The views of a sequence of strings, one for one.
pub open spec fn views(strings: Seq<String>) -> Seq<Seq<char>> {
    strings.map_values(|s: String| s@)
}

/// The characters of `text`, in order.
pub fn chars_of(text: &str) -> (chars: Vec<char>)
    ensures
        chars@ == text@,
{
    let mut chars: Vec<char> = Vec::new();
    for c in it: text.chars()
        invariant
            it.seq() == text@,
            chars@ == it.seq().take(it.index()),
    {
        chars.push(c);
    }
    chars
}

/// Appends `chars` to `out`, in order.
pub fn append_chars(out: &mut String, chars: &[char])
    ensures
        final(out)@ == old(out)@ + chars@,
{
    let n: usize = chars.len();
    let mut k: usize = 0;
    proof {
        assert(chars@.take(0) =~= Seq::<char>::empty());
        assert(out@ =~= old(out)@ + chars@.take(0));
    }
    while k < n
        invariant
            n == chars@.len(),
            k <= n,
            out@ == old(out)@ + chars@.take(k as int),
        decreases n - k,
    {
        out.push(chars[k]);
        k += 1;
        proof {
            assert(chars@.take(k as int) =~= chars@.take(k - 1).push(chars@[k - 1]));
            assert(out@ =~= old(out)@ + chars@.take(k as int));
        }
    }
    proof {
        assert(chars@.take(n as int) =~= chars@);
    }
}

} // verus!
