//! Removal of `/* ... */` comments from layout text.
use vstd::prelude::*;

use crate::text::contains_seq;

verus! {

/// Text with every `/* ... */` comment removed; an unclosed comment runs to the end.
pub open spec fn strip_comments_spec(s: Seq<char>) -> Seq<char>
    decreases s.len(), 1int,
{
    if s.len() == 0 {
        seq![]
    } else if s.len() > 1 && s[0] == '/' && s[1] == '*' {
        skip_comment(s.skip(2))
    } else {
        seq![s[0]] + strip_comments_spec(s.drop_first())
    }
}

/// The rest of the text after the end of the comment it starts in.
pub open spec fn skip_comment(s: Seq<char>) -> Seq<char>
    decreases s.len(), 0int,
{
    if s.len() == 0 {
        seq![]
    } else if s.len() > 1 && s[0] == '*' && s[1] == '/' {
        strip_comments_spec(s.skip(2))
    } else {
        skip_comment(s.drop_first())
    }
}

/// Removes `/* ... */` comments.
pub fn strip_comments(text: &[char]) -> (out: Vec<char>)
    ensures
        out@ == strip_comments_spec(text@),
{
    let mut out: Vec<char> = Vec::new();
    let mut i: usize = 0;
    let mut in_comment = false;
    assert(text@.skip(0) =~= text@);
    while i < text.len()
        invariant
            i <= text@.len(),
            !in_comment ==> out@ + strip_comments_spec(text@.skip(i as int)) == strip_comments_spec(text@),
            in_comment ==> out@ + skip_comment(text@.skip(i as int)) == strip_comments_spec(text@),
        decreases text.len() - i,
    {
        let ghost s = text@.skip(i as int);
        let c = text[i];
        let two = i + 1 < text.len();
        if !in_comment {
            if c == '/' && two && text[i + 1] == '*' {
                assert(s.skip(2) =~= text@.skip(i + 2));
                in_comment = true;
                i = i + 2;
            } else {
                let ghost before = out@;
                out.push(c);
                assert(s.drop_first() =~= text@.skip(i + 1));
                assert(out@ + strip_comments_spec(text@.skip(i + 1)) =~= before + (seq![c]
                    + strip_comments_spec(s.drop_first())));
                i = i + 1;
            }
        } else {
            if c == '*' && two && text[i + 1] == '/' {
                assert(s.skip(2) =~= text@.skip(i + 2));
                in_comment = false;
                i = i + 2;
            } else {
                assert(s.drop_first() =~= text@.skip(i + 1));
                i = i + 1;
            }
        }
    }
    assert(text@.skip(i as int) =~= Seq::<char>::empty());
    assert(out@ + Seq::<char>::empty() =~= out@);
    out
}

/// Text without `/*` is left as it is.
pub proof fn law_strip_comments_identity(s: Seq<char>)
    requires
        !contains_seq(s, seq!['/', '*']),
    ensures
        strip_comments_spec(s) == s,
    decreases s.len(),
{
    let p = seq!['/', '*'];
    assert(p.len() == 2);
    if s.len() > 0 {
        if s.len() > 1 && s[0] == '/' && s[1] == '*' {
            assert(s.subrange(0, 0 + p.len() as int) =~= p);
            assert(false);
        }
        let t = s.drop_first();
        assert forall|i: int| 0 <= i && i + p.len() <= t.len() implies #[trigger] t.subrange(i, i + p.len() as int) != p by {
            assert(t.subrange(i, i + p.len() as int) =~= s.subrange(i + 1, (i + 1) + p.len() as int));
        }
        law_strip_comments_identity(t);
        assert(seq![s[0]] + t =~= s);
    }
}


/// Whether `s` holds `a` immediately followed by `b` somewhere.
pub open spec fn has_pair(s: Seq<char>, a: char, b: char) -> bool {
    exists|i: int| 0 <= i < s.len() - 1 && s[i] == a && #[trigger] s[i + 1] == b
}

/// Text with no comment opener passes through in front of what follows it,
/// unless its last `/` could open a comment with what follows.
proof fn lemma_strip_prefix(x: Seq<char>, z: Seq<char>)
    requires
        !has_pair(x, '/', '*'),
        x.len() > 0 ==> x.last() != '/',
    ensures
        strip_comments_spec(x + z) == x + strip_comments_spec(z),
    decreases x.len(),
{
    if x.len() > 0 {
        let s = x + z;
        let t = x.drop_first();
        if s.len() > 1 && s[0] == '/' && s[1] == '*' {
            if x.len() > 1 {
                let k: int = 0;
                assert(x[k] == '/' && x[k + 1] == '*');
            }
            assert(false);
        }
        assert(s.drop_first() =~= t + z);
        assert forall|i: int| 0 <= i < t.len() - 1 && t[i] == '/' implies #[trigger] t[i + 1] != '*' by {
            assert(t[i] == x[i + 1] && t[i + 1] == x[(i + 1) + 1]);
        }
        if t.len() > 0 {
            assert(t.last() == x.last());
        }
        lemma_strip_prefix(t, z);
        assert(seq![x[0]] + (t + strip_comments_spec(z)) =~= x + strip_comments_spec(z));
    }
}

/// Inside a comment, everything up to the first `*/` is dropped.
proof fn lemma_skip_to_close(c: Seq<char>, y: Seq<char>)
    requires
        !has_pair(c, '*', '/'),
    ensures
        skip_comment(c + seq!['*', '/'] + y) == strip_comments_spec(y),
    decreases c.len(),
{
    let t = c + seq!['*', '/'] + y;
    if c.len() == 0 {
        assert(t.skip(2) =~= y);
    } else {
        let d = c.drop_first();
        if t[0] == '*' && t[1] == '/' {
            if c.len() > 1 {
                let k: int = 0;
                assert(c[k] == '*' && c[k + 1] == '/');
            }
            assert(false);
        }
        assert(t.drop_first() =~= d + seq!['*', '/'] + y);
        assert forall|i: int| 0 <= i < d.len() - 1 && d[i] == '*' implies #[trigger] d[i + 1] != '/' by {
            assert(d[i] == c[i + 1] && d[i + 1] == c[(i + 1) + 1]);
        }
        lemma_skip_to_close(d, y);
    }
}

/// A whole `/* ... */` comment is removed, across any number of lines: text
/// without a comment opener before it stays, and the text after it is
/// stripped in turn.
pub proof fn law_comment_removed(x: Seq<char>, c: Seq<char>, y: Seq<char>)
    requires
        !has_pair(x, '/', '*'),
        x.len() > 0 ==> x.last() != '/',
        !has_pair(c, '*', '/'),
    ensures
        strip_comments_spec(x + seq!['/', '*'] + c + seq!['*', '/'] + y) == x + strip_comments_spec(y),
{
    let z = seq!['/', '*'] + c + seq!['*', '/'] + y;
    assert(x + seq!['/', '*'] + c + seq!['*', '/'] + y =~= x + z);
    lemma_strip_prefix(x, z);
    assert(z.skip(2) =~= c + seq!['*', '/'] + y);
    lemma_skip_to_close(c, y);
}

} // verus!
