//! Terminal-safe rendering: diagnostics and reports pass through a sanitizer that makes control
//! characters visible rather than letting a terminal act on them, and fixed-width columns are
//! padded with spaces.

use vstd::prelude::*;

use crate::text::push_char;

verus! {

/// Whether `c` is a control character: the C0 range, DEL, or the C1 range.
pub open spec fn is_control_char(c: char) -> bool {
    (c as int) < 0x20 || (0x7f <= (c as int) && (c as int) < 0xa0)
}

/// `s` with every control character replaced by U+FFFD, the replacement character.
pub open spec fn sanitized(s: Seq<char>) -> Seq<char> {
    s.map_values(|c: char| if is_control_char(c) { '\u{FFFD}' } else { c })
}

/// Make `text` safe to print: every control character (a newline and an escape included) becomes
/// U+FFFD, so a hostile or careless string cannot drive the terminal.
pub fn sanitize(text: &str) -> (r: String)
    ensures
        r@ == sanitized(text@),
{
    let mut out = String::new();
    for c in it: text.chars()
        invariant
            it.seq() == text@,
            out@ == sanitized(text@.take(it.index())),
    {
        let shown = if c < '\u{20}' || ('\u{7f}' <= c && c < '\u{a0}') {
            '\u{FFFD}'
        } else {
            c
        };
        push_char(&mut out, shown);
        proof {
            assert(sanitized(text@.take(it.index() + 1)) =~= sanitized(text@.take(it.index())).push(
                shown,
            ));
        }
    }
    proof {
        assert(text@.take(text@.len() as int) =~= text@);
    }
    out
}

/// `s` padded on the right with spaces to `width` characters; a longer `s` is left as it is.
pub open spec fn padded(s: Seq<char>, width: nat) -> Seq<char> {
    if s.len() < width {
        s + Seq::new((width - s.len()) as nat, |i: int| ' ')
    } else {
        s
    }
}

/// Append `s` to `out`, padded on the right with spaces to `width` characters.
pub fn push_padded(out: &mut String, s: &str, width: usize)
    ensures
        final(out)@ == old(out)@ + padded(s@, width as nat),
{
    let cs = crate::text::chars_of(s);
    let ghost start = out@;
    crate::text::push_str(out, s);
    let mut n = cs.len();
    while n < width
        invariant
            cs@ == s@,
            n >= cs.len(),
            n <= width || n == cs.len(),
            out@ == start + s@ + Seq::new((n - cs.len()) as nat, |i: int| ' '),
        decreases width - n,
    {
        push_char(out, ' ');
        proof {
            assert(Seq::new((n + 1 - cs.len()) as nat, |i: int| ' ') =~= Seq::new(
                (n - cs.len()) as nat,
                |i: int| ' ',
            ).push(' '));
        }
        n = n + 1;
    }
    proof {
        if s@.len() >= width {
            assert(Seq::new((n - cs.len()) as nat, |i: int| ' ') =~= Seq::<char>::empty());
            assert(s@ + Seq::<char>::empty() =~= s@);
        }
        assert(start + s@ + Seq::new((n - cs.len()) as nat, |i: int| ' ') =~= start + (s@
            + Seq::new((n - cs.len()) as nat, |i: int| ' ')));
    }
}

} // verus!
