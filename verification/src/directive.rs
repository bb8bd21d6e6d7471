//! Inclusion directives: how they are written, where they stand in a text
//! and which files they name.
use crate::comments::strip_chars;
use crate::comments::strip_comments_spec;
use crate::text::char_is_space;
use crate::text::chars_of;
use crate::text::is_space;
use crate::text::same_text;
use crate::text::string_of;
use crate::text::texts;
use vstd::prelude::*;

verus! {

/// Whether the keyword that opens an inclusion directive stands at position
/// `i`.
pub open spec fn has_keyword(s: Seq<char>, i: int) -> bool {
    &&& 0 <= i
    &&& i + 7 <= s.len()
    &&& s[i] == 'i'
    &&& s[i + 1] == 'n'
    &&& s[i + 2] == 'c'
    &&& s[i + 3] == 'l'
    &&& s[i + 4] == 'u'
    &&& s[i + 5] == 'd'
    &&& s[i + 6] == 'e'
}

/// The number of white-space characters that stand in a row from position
/// `i` on.
pub open spec fn space_run(s: Seq<char>, i: int) -> nat
    decreases s.len() - i,
{
    if 0 <= i < s.len() && is_space(s[i]) {
        1 + space_run(s, i + 1)
    } else {
        0
    }
}

/// The number of characters from position `i` up to the next double quote or
/// the end of the line, whichever comes first.
pub open spec fn name_run(s: Seq<char>, i: int) -> nat
    decreases s.len() - i,
{
    if 0 <= i < s.len() && s[i] != '"' && s[i] != '\n' {
        1 + name_run(s, i + 1)
    } else {
        0
    }
}

/// The length of the file name that starts at `from`, if one does: the name
/// runs up to the next double quote on the line, and a semicolon must follow
/// that quote.
pub open spec fn name_length(s: Seq<char>, from: int) -> Option<nat> {
    let n = name_run(s, from);
    if from + n + 1 < s.len() && s[from + n] == '"' && s[from + n + 1] == ';' {
        Some(n)
    } else {
        None
    }
}

/// The inclusion directive that starts at position `i`, if one does: where
/// its file name starts, and how long the name is.
///
/// A directive is the keyword, any white space, a double quote, the file
/// name, a double quote and a semicolon. The name holds no double quote and
/// no line break: it ends at the first double quote behind the one that
/// opens it. What follows the semicolon is no part of the directive, on the
/// same line or another.
pub open spec fn directive_at(s: Seq<char>, i: int) -> Option<(int, nat)> {
    if has_keyword(s, i) {
        let quote = i + 7 + space_run(s, i + 7);
        if quote < s.len() && s[quote] == '"' {
            match name_length(s, quote + 1) {
                Some(n) => Some((quote + 1, n)),
                None => None,
            }
        } else {
            None
        }
    } else {
        None
    }
}

/// The position behind the directive that starts at position `i`.
pub open spec fn directive_end(s: Seq<char>, i: int) -> int {
    match directive_at(s, i) {
        Some((start, n)) => start + n + 2,
        None => i,
    }
}

/// Whether no directive starts at any position from `i` up to, but not
/// including, `k`.
pub open spec fn directive_free(s: Seq<char>, i: int, k: int) -> bool {
    forall|j: int| i <= j < k ==> directive_at(s, j) is None
}

/// The white space from position `i` on ends within the text.
proof fn lemma_space_run(s: Seq<char>, i: int)
    requires
        0 <= i <= s.len(),
    ensures
        i + space_run(s, i) <= s.len(),
    decreases s.len() - i,
{
    if i < s.len() && is_space(s[i]) {
        lemma_space_run(s, i + 1);
    }
}

/// A name ends within the text.
proof fn lemma_name_run(s: Seq<char>, i: int)
    requires
        0 <= i <= s.len(),
    ensures
        i + name_run(s, i) <= s.len(),
        forall|k: int| i <= k < i + name_run(s, i) ==> s[k] != '"' && s[k] != '\n',
    decreases s.len() - i,
{
    if i < s.len() && s[i] != '"' && s[i] != '\n' {
        lemma_name_run(s, i + 1);
    }
}

/// A directive lies within the text: its name starts after the keyword and
/// the opening quote and holds neither a double quote nor a line break, and
/// its closing quote and semicolon stand before the end of the text.
pub proof fn lemma_directive_bounds(s: Seq<char>, i: int)
    ensures
        match directive_at(s, i) {
            Some((start, n)) => {
                &&& i + 8 <= start
                &&& start + n + 2 <= s.len()
                &&& s[start - 1] == '"'
                &&& s[start + n] == '"'
                &&& s[start + n + 1] == ';'
                &&& forall|k: int| start <= k < start + n ==> s[k] != '"' && s[k] != '\n'
            },
            None => true,
        },
{
    if has_keyword(s, i) {
        lemma_space_run(s, i + 7);
        let quote = i + 7 + space_run(s, i + 7);
        if quote < s.len() && s[quote] == '"' {
            lemma_name_run(s, quote + 1);
        }
    }
}

/// Looks for the directive that starts at position `i`: see
/// [`directive_at`]. Hands out where the file name starts and where it ends.
pub fn find_directive(s: &Vec<char>, i: usize) -> (r: Option<(usize, usize)>)
    ensures
        match r {
            Some((start, end)) => i + 8 <= start <= end && end + 2 <= s.len() && directive_at(
                s@,
                i as int,
            ) == Some((start as int, (end - start) as nat)),
            None => directive_at(s@, i as int) is None,
        },
{
    let len: usize = s.len();
    if len < 7 || i > len - 7 {
        return None;
    }
    if !(s[i] == 'i' && s[i + 1] == 'n' && s[i + 2] == 'c' && s[i + 3] == 'l' && s[i + 4] == 'u'
        && s[i + 5] == 'd' && s[i + 6] == 'e') {
        return None;
    }
    let mut quote: usize = i + 7;
    while quote < len && char_is_space(s[quote])
        invariant
            i + 7 <= quote <= len,
            len == s.len(),
            i + 7 + space_run(s@, i + 7) == quote + space_run(s@, quote as int),
        decreases len - quote,
    {
        quote += 1;
    }
    if quote >= len || s[quote] != '"' {
        return None;
    }
    let start: usize = quote + 1;
    let mut end: usize = start;
    while end < len && s[end] != '"' && s[end] != '\n'
        invariant
            start <= end <= len,
            len == s.len(),
            start + name_run(s@, start as int) == end + name_run(s@, end as int),
        decreases len - end,
    {
        end += 1;
    }
    if end < len && s[end] == '"' && end + 1 < len && s[end + 1] == ';' {
        Some((start, end))
    } else {
        None
    }
}

/// A directive as it is written: the keyword, the white space `gap`, and
/// the file name between double quotes, closed by a semicolon.
pub open spec fn directive_text(gap: Seq<char>, name: Seq<char>) -> Seq<char> {
    seq!['i', 'n', 'c', 'l', 'u', 'd', 'e'] + gap + seq!['"'] + name + seq!['"', ';']
}

/// White space of a known length, with something else behind it, is a run of
/// exactly that length.
proof fn lemma_space_run_exact(s: Seq<char>, i: int, n: nat)
    requires
        0 <= i,
        i + n < s.len(),
        forall|k: int| i <= k < i + n ==> is_space(s[k]),
        !is_space(s[i + n]),
    ensures
        space_run(s, i) == n,
    decreases n,
{
    if n > 0 {
        lemma_space_run_exact(s, i + 1, (n - 1) as nat);
    }
}

/// A name of a known length, with a double quote behind it, is a run of
/// exactly that length.
proof fn lemma_name_run_exact(s: Seq<char>, i: int, n: nat)
    requires
        0 <= i,
        i + n < s.len(),
        forall|k: int| i <= k < i + n ==> s[k] != '"' && s[k] != '\n',
        s[i + n] == '"',
    ensures
        name_run(s, i) == n,
    decreases n,
{
    if n > 0 {
        lemma_name_run_exact(s, i + 1, (n - 1) as nat);
    }
}

/// What is written as a directive is one, whatever stands before and behind
/// it. Where the text of a directive stands behind `before`, its name
/// holding no double quote and no line break, a directive starts right
/// behind `before`, its file name is `name`, and it ends where `after`
/// begins.
pub proof fn lemma_directive_syntax(
    before: Seq<char>,
    gap: Seq<char>,
    name: Seq<char>,
    after: Seq<char>,
)
    requires
        forall|k: int| 0 <= k < gap.len() ==> is_space(#[trigger] gap[k]),
        forall|k: int| 0 <= k < name.len() ==> #[trigger] name[k] != '\n' && name[k] != '"',
    ensures
        ({
            let s = before + directive_text(gap, name) + after;
            let start = (before.len() + 8 + gap.len()) as int;
            &&& directive_at(s, before.len() as int) == Some((start, name.len()))
            &&& s.subrange(start, start + name.len()) == name
            &&& directive_end(s, before.len() as int) == s.len() - after.len()
        }),
{
    let s = before + directive_text(gap, name) + after;
    let at = before.len() as int;
    let quote = at + 7 + gap.len();
    let start = quote + 1;
    let close = start + name.len();
    assert(s.len() - after.len() == close + 2);
    assert(has_keyword(s, at));
    assert(s[quote] == '"');
    assert forall|k: int| at + 7 <= k < quote implies is_space(s[k]) by {
        assert(s[k] == gap[k - at - 7]);
    }
    lemma_space_run_exact(s, at + 7, gap.len());
    assert forall|k: int| start <= k < close implies s[k] != '"' && s[k] != '\n' by {
        assert(s[k] == name[k - start]);
    }
    assert(s[close] == '"' && s[close + 1] == ';');
    lemma_name_run_exact(s, start, name.len());
    assert(s.subrange(start, close) =~= name);
}

/// The names of the files that the directives of a text name, from position
/// `i` on, in the order of the directives.
pub open spec fn directive_names(s: Seq<char>, i: int) -> Seq<Seq<char>>
    decreases s.len() - i,
    via directive_names_terminates
{
    if i < 0 || i >= s.len() {
        Seq::empty()
    } else {
        match directive_at(s, i) {
            Some((start, n)) => seq![s.subrange(start, start + n)] + directive_names(
                s,
                start + n + 2,
            ),
            None => directive_names(s, i + 1),
        }
    }
}

#[via_fn]
proof fn directive_names_terminates(s: Seq<char>, i: int) {
    lemma_directive_bounds(s, i);
}

/// The files that a source text names in its own inclusion directives, in
/// order, comments left aside. These are the files that must be at hand to
/// preprocess the text, together with those that they name in turn.
pub fn include_names(input: &str) -> (names: Vec<String>)
    ensures
        texts(names@) == directive_names(strip_comments_spec(input@), 0),
{
    let chars = chars_of(input);
    let s = strip_chars(&chars);
    let mut names: Vec<String> = Vec::new();
    let mut i: usize = 0;
    assert(texts(names@) + directive_names(s@, 0) =~= directive_names(s@, 0));
    while i < s.len()
        invariant
            i <= s.len(),
            directive_names(s@, 0) == texts(names@) + directive_names(s@, i as int),
        decreases s.len() - i,
    {
        let ghost before = texts(names@);
        match find_directive(&s, i) {
            Some((start, end)) => {
                let name = string_of(&s, start, end);
                names.push(name);
                assert(texts(names@) + directive_names(s@, end + 2) =~= before + (
                seq![s@.subrange(start as int, end as int)] + directive_names(s@, end + 2)));
                i = end + 2;
            },
            None => {
                i += 1;
            },
        }
    }
    assert(texts(names@) + Seq::<Seq<char>>::empty() =~= texts(names@));
    names
}

/// Where the file that a directive names is to be looked for.
#[derive(Clone, Copy, Debug, PartialEq, Eq, Structural)]
pub enum IncludeOrigin {
    /// The standard gate library, which ships with the host installation.
    StandardLibrary,
    /// A file named relative to the current working directory.
    WorkingDirectory,
}

/// The reserved file name of the standard gate library.
pub open spec fn standard_library_name() -> Seq<char> {
    "qelib1.inc"@
}

/// Says where the file that a directive names is to be looked for: the
/// reserved name of the standard gate library stands for the library that
/// ships with the host; every other name is taken relative to the working
/// directory.
pub fn include_origin(name: &str) -> (origin: IncludeOrigin)
    ensures
        origin == if name@ == standard_library_name() {
            IncludeOrigin::StandardLibrary
        } else {
            IncludeOrigin::WorkingDirectory
        },
{
    if same_text(name, "qelib1.inc") {
        IncludeOrigin::StandardLibrary
    } else {
        IncludeOrigin::WorkingDirectory
    }
}

/// The path of the standard gate library below the installation root of the
/// host.
pub fn standard_library_path() -> (path: &'static str)
    ensures
        path@ == "qasm/libs/qelib1.inc"@,
{
    "qasm/libs/qelib1.inc"
}

} // verus!
