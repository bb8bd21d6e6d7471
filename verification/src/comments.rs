//! Line comments: two slashes open a comment, which runs to the end of its
//! line.
use crate::text::chars_of;
use crate::text::string_of;
use vstd::prelude::*;

verus! {

/// Whether a line comment, which two slashes open, starts at position `i`.
pub open spec fn starts_comment(s: Seq<char>, i: int) -> bool {
    0 <= i && i + 1 < s.len() && s[i] == '/' && s[i + 1] == '/'
}

/// The text from position `i` on without its line comments, where
/// `in_comment` says whether position `i` lies inside a comment. A comment
/// runs from its two slashes up to, but not including, the end of its line.
pub open spec fn strip_from(s: Seq<char>, i: int, in_comment: bool) -> Seq<char>
    decreases s.len() - i,
{
    if i < 0 || i >= s.len() {
        Seq::empty()
    } else if in_comment {
        if s[i] == '\n' {
            seq!['\n'] + strip_from(s, i + 1, false)
        } else {
            strip_from(s, i + 1, true)
        }
    } else if starts_comment(s, i) {
        strip_from(s, i + 1, true)
    } else {
        seq![s[i]] + strip_from(s, i + 1, false)
    }
}

/// The text without its line comments.
pub open spec fn strip_comments_spec(s: Seq<char>) -> Seq<char> {
    strip_from(s, 0, false)
}

/// Removes the line comments from a text held as characters.
pub fn strip_chars(s: &Vec<char>) -> (out: Vec<char>)
    ensures
        out@ == strip_comments_spec(s@),
{
    let mut out: Vec<char> = Vec::new();
    let mut in_comment = false;
    let mut i: usize = 0;
    while i < s.len()
        invariant
            i <= s.len(),
            strip_comments_spec(s@) == out@ + strip_from(s@, i as int, in_comment),
        decreases s.len() - i,
    {
        let ghost before = out@;
        let ghost rest = strip_from(s@, i as int + 1, false);
        if in_comment {
            if s[i] == '\n' {
                out.push('\n');
                in_comment = false;
                assert(out@ + rest =~= before + (seq!['\n'] + rest));
            }
        } else if s[i] == '/' && i + 1 < s.len() && s[i + 1] == '/' {
            in_comment = true;
        } else {
            out.push(s[i]);
            assert(out@ + rest =~= before + (seq![s@[i as int]] + rest));
        }
        i += 1;
    }
    assert(out@ + Seq::<char>::empty() =~= out@);
    out
}

/// Removes the line comments from a text: everything from two slashes up to
/// the end of the line goes; the line break itself stays.
pub fn strip_comments(input: &str) -> (out: String)
    ensures
        out@ == strip_comments_spec(input@),
{
    let chars = chars_of(input);
    let stripped = strip_chars(&chars);
    let out = string_of(&stripped, 0, stripped.len());
    assert(stripped@.subrange(0, stripped@.len() as int) =~= stripped@);
    out
}

/// What the stripped text starts with: outside a comment and not at the start
/// of one, with the character at hand; otherwise, if anything is left, with
/// the line break that ends the comment.
proof fn lemma_strip_first(s: Seq<char>, i: int, in_comment: bool)
    requires
        0 <= i,
    ensures
        strip_from(s, i, in_comment).len() > 0 ==> strip_from(s, i, in_comment)[0] == (if i
            < s.len() && !in_comment && !starts_comment(s, i) {
            s[i]
        } else {
            '\n'
        }),
    decreases s.len() - i,
{
    if i < s.len() {
        if in_comment {
            if s[i] != '\n' {
                lemma_strip_first(s, i + 1, true);
            }
        } else if starts_comment(s, i) {
            lemma_strip_first(s, i + 1, true);
        }
    }
}

/// No comment starts anywhere in stripped text.
proof fn lemma_strip_leaves_no_comment(s: Seq<char>, i: int, in_comment: bool)
    requires
        0 <= i,
    ensures
        forall|j: int| !starts_comment(strip_from(s, i, in_comment), j),
    decreases s.len() - i,
{
    let out = strip_from(s, i, in_comment);
    if i < s.len() {
        if in_comment && s[i] != '\n' {
            lemma_strip_leaves_no_comment(s, i + 1, true);
            assert(out == strip_from(s, i + 1, true));
        } else if !in_comment && starts_comment(s, i) {
            lemma_strip_leaves_no_comment(s, i + 1, true);
            assert(out == strip_from(s, i + 1, true));
        } else {
            let rest = strip_from(s, i + 1, false);
            lemma_strip_leaves_no_comment(s, i + 1, false);
            lemma_strip_first(s, i + 1, false);
            assert(out == seq![s[i]] + rest);
            assert forall|j: int| !starts_comment(out, j) by {
                if starts_comment(out, j) {
                    if j == 0 {
                        assert(out[0] == s[i]);
                        assert(out[1] == rest[0]);
                    } else {
                        assert(out[j] == rest[j - 1]);
                        assert(out[j + 1] == rest[j]);
                        assert(starts_comment(rest, j - 1));
                    }
                }
            }
        }
    }
}

/// Text in which no comment starts is left as it is.
pub proof fn lemma_strip_without_comment(s: Seq<char>, i: int)
    requires
        0 <= i <= s.len(),
        forall|j: int| !starts_comment(s, j),
    ensures
        strip_from(s, i, false) == s.subrange(i, s.len() as int),
    decreases s.len() - i,
{
    if i < s.len() {
        lemma_strip_without_comment(s, i + 1);
        assert(!starts_comment(s, i));
        assert(seq![s[i]] + s.subrange(i + 1, s.len() as int) =~= s.subrange(i, s.len() as int));
    } else {
        assert(s.subrange(i, s.len() as int) =~= Seq::<char>::empty());
    }
}

/// Removing comments is idempotent: text from which the comments were
/// removed holds no comment, so that removing comments once more gives the
/// same text.
pub proof fn lemma_strip_is_idempotent(s: Seq<char>)
    ensures
        strip_comments_spec(strip_comments_spec(s)) == strip_comments_spec(s),
        forall|j: int| !starts_comment(strip_comments_spec(s), j),
{
    let once = strip_comments_spec(s);
    lemma_strip_leaves_no_comment(s, 0, false);
    lemma_strip_without_comment(once, 0);
    assert(once.subrange(0, once.len() as int) =~= once);
}

} // verus!
