use vstd::prelude::*;
use vstd::string::StrSliceExecFns;
use vstd::string::StringExecFns;

use crate::text::push_char;

verus! {

/// The legacy transform applied to an aging-out generation: every
/// character of every line is written twice, while the newlines that
/// separate lines are kept as they are.
pub open spec fn dup_chars(s: Seq<char>) -> Seq<char>
    decreases s.len(),
{
    if s.len() == 0 {
        Seq::empty()
    } else {
        dup_chars(s.drop_last()) + (if s.last() == '\n' {
            seq!['\n']
        } else {
            seq![s.last(), s.last()]
        })
    }
}

/// Rewrites `contents` with every character doubled except newlines.
pub fn duplicate_bytes_in_lines(contents: &mut String)
    ensures
        final(contents)@ == dup_chars(old(contents)@),
{
    let len = contents.as_str().unicode_len();
    let mut out = String::new();
    let mut i: usize = 0;
    while i < len
        invariant
            contents@ == old(contents)@,
            len == old(contents)@.len(),
            i <= len,
            out@ == dup_chars(old(contents)@.take(i as int)),
        decreases len - i,
    {
        let c = contents.as_str().get_char(i);
        if c == '\n' {
            push_char(&mut out, '\n');
        } else {
            push_char(&mut out, c);
            push_char(&mut out, c);
        }
        proof {
            let s = old(contents)@;
            assert(s.take(i + 1).drop_last() =~= s.take(i as int));
            assert(s.take(i + 1).last() == s[i as int]);
            if s[i as int] == '\n' {
                assert(out@ =~= dup_chars(s.take(i as int)) + seq!['\n']);
            } else {
                assert(out@ =~= dup_chars(s.take(i as int)) + seq![s[i as int], s[i as int]]);
            }
        }
        i += 1;
    }
    proof {
        assert(old(contents)@.take(len as int) =~= old(contents)@);
    }
    *contents = out;
}

/// The name under which the transformed copy of `path` is written.
pub open spec fn transform_output_name(path: Seq<char>) -> Seq<char> {
    path + ".zip"@
}

pub fn make_transform_output_name(path: &str) -> (r: String)
    ensures
        r@ == transform_output_name(path@),
{
    let mut s = String::from_str(path);
    s.append(".zip");
    s
}

} // verus!
